//! The step planner: recipe resolution, recursive demand expansion, work
//! sharing across machines, and the energy-feedback closure.

use vstd::prelude::*;
use vstd::string::StrSliceExecFns;
use vstd::string::StringExecFns;

use crate::dict::Dict;
use crate::dict::dict_add;
use crate::dict::dict_has;
use crate::dict::dict_idx;
use crate::dict::str_eq;
use crate::graph::Category;
use crate::graph::CategoryV;
use crate::graph::Item;
use crate::graph::ItemV;
use crate::graph::Recipe;
use crate::graph::RecipeV;
use crate::graph::amt_has;
use crate::graph::machine_covers;
use crate::graph::MachineV;
use crate::graph::amt_idx;
use crate::qty::Number;
use crate::qty::One;
use crate::qty::Seconds;
use crate::qty::spec_add;
use crate::qty::spec_div;
use crate::qty::spec_div_ceil;
use crate::qty::spec_mul;
use crate::world::World;
use crate::world::WorldV;
use crate::world::wf_world;

verus! {

/// A failure scoped to the current planning call.
#[derive(Debug)]
pub enum PlanError {
    /// No preferred fuel is set for a burner fuel category.
    NoPreferredFuel { category: String },
    /// No recipe yields the item on any machine the world owns.
    NoRecipeFound { item: Item },
    /// A recipe name was demanded that the graph does not know.
    UnknownRecipe { name: String },
    /// A machine name was used that the graph or the world does not know.
    UnknownMachine { name: String },
    /// A technology was demanded that the graph does not know.
    UnknownResearch { name: String },
    /// No owned machine covers the recipe's category at positive speed.
    NoMachineForCategory { recipe: String },
    /// An energy entry was demanded where an item name is needed.
    EnergyHasNoName,
    /// The demand expansion recursed past the depth bound.
    DepthLimit,
    /// The energy closure did not settle within the round bound.
    RoundLimit,
}

/// The mathematical shape of a `PlanError`.
pub enum PlanErrorV {
    NoPreferredFuel { category: Seq<char> },
    NoRecipeFound { item: ItemV },
    UnknownRecipe { name: Seq<char> },
    UnknownMachine { name: Seq<char> },
    UnknownResearch { name: Seq<char> },
    NoMachineForCategory { recipe: Seq<char> },
    EnergyHasNoName,
    DepthLimit,
    RoundLimit,
}

impl View for PlanError {
    type V = PlanErrorV;

    open spec fn view(&self) -> PlanErrorV {
        match self {
            PlanError::NoPreferredFuel { category } => PlanErrorV::NoPreferredFuel {
                category: category@,
            },
            PlanError::NoRecipeFound { item } => PlanErrorV::NoRecipeFound { item: item@ },
            PlanError::UnknownRecipe { name } => PlanErrorV::UnknownRecipe { name: name@ },
            PlanError::UnknownMachine { name } => PlanErrorV::UnknownMachine { name: name@ },
            PlanError::UnknownResearch { name } => PlanErrorV::UnknownResearch { name: name@ },
            PlanError::NoMachineForCategory { recipe } => PlanErrorV::NoMachineForCategory {
                recipe: recipe@,
            },
            PlanError::EnergyHasNoName => PlanErrorV::EnergyHasNoName,
            PlanError::DepthLimit => PlanErrorV::DepthLimit,
            PlanError::RoundLimit => PlanErrorV::RoundLimit,
        }
    }
}

/// Whether `sub` occurs contiguously inside `s`.
pub open spec fn has_substr(s: Seq<char>, sub: Seq<char>) -> bool {
    exists|i: int| 0 <= i <= s.len() - sub.len() && #[trigger] s.subrange(i, i + sub.len()) == sub
}

/// Whether `sub` occurs at position `i` of `s`.
fn matches_at(s: &str, i: usize, sub: &str) -> (r: bool)
    requires
        i + sub@.len() <= s@.len(),
    ensures
        r == (s@.subrange(i as int, i + sub@.len()) == sub@),
{
    let n = s.unicode_len();
    let m = sub.unicode_len();
    let mut j: usize = 0;
    while j < m
        invariant
            n == s@.len(),
            m == sub@.len(),
            i + m <= n,
            j <= m,
            forall|k: int| 0 <= k < j ==> s@[i + k] == sub@[k],
        decreases m - j,
    {
        if s.get_char(i + j) != sub.get_char(j) {
            proof {
                assert(s@.subrange(i as int, i + sub@.len())[j as int] == s@[i + j]);
            }
            return false;
        }
        j += 1;
    }
    proof {
        assert(s@.subrange(i as int, i + sub@.len()) =~= sub@);
    }
    true
}

/// Substring search.
pub fn str_contains(s: &str, sub: &str) -> (r: bool)
    ensures
        r == has_substr(s@, sub@),
{
    let n = s.unicode_len();
    let m = sub.unicode_len();
    if m > n {
        return false;
    }
    if m == 0 {
        proof {
            assert(s@.subrange(0, 0 + sub@.len() as int) =~= sub@);
            assert(has_substr(s@, sub@));
        }
        return true;
    }
    let mut i: usize = 0;
    while i <= n - m
        invariant
            n == s@.len(),
            m == sub@.len(),
            0 < m <= n,
            i <= n - m + 1,
            forall|k: int| 0 <= k < i ==> #[trigger] s@.subrange(k, k + sub@.len()) != sub@,
        decreases n - m + 1 - i,
    {
        if matches_at(s, i, sub) {
            return true;
        }
        i += 1;
    }
    false
}

/// The name of a tangible item; energy entries have none.
pub open spec fn item_name(i: ItemV) -> Seq<char> {
    match i {
        ItemV::Tangible { name } => name,
        ItemV::Energy { .. } => Seq::empty(),
    }
}

/// The synthesized name of the recipe burning `fuel` in `category`.
pub open spec fn fuel_recipe_name(fuel: Seq<char>, category: Seq<char>) -> Seq<char> {
    fuel + " "@ + category + " burnable fuel energy"@
}

/// Whether some machine the world owns covers category `c`.
pub open spec fn category_covered(w: WorldV, c: CategoryV) -> bool {
    exists|i: int|
        0 <= i < w.machines.len() && {
            let name = (#[trigger] w.machines[i]).0;
            dict_has(w.graph.machines, name) && w.graph.machines[dict_idx(
                w.graph.machines,
                name,
            )].1.categories.contains(c)
        }
}

/// Whether `item` is the tangible item `coal`.
pub open spec fn is_coal(item: ItemV) -> bool {
    item matches ItemV::Tangible { name } && name == "coal"@
}

/// Whether recipe `r` may be used to produce `item` in world `w`: it yields
/// the item, a machine the world owns covers its category, and it is none of
/// the excluded sources (no pickaxe-mining coal, no barreling recipes, no
/// coal liquefaction).
pub open spec fn resolvable(w: WorldV, item: ItemV, r: RecipeV) -> bool {
    &&& amt_has(r.results, item)
    &&& category_covered(w, r.category)
    &&& !(is_coal(item) && has_substr(r.name, "pickaxe"@))
    &&& !has_substr(r.name, "barrel"@)
    &&& r.name != "coal-liquefaction"@
}

/// The resolution preference: free sources first, then advanced oil
/// processing, then an arbitrary survivor.
pub open spec fn key_rank(r: RecipeV) -> int {
    (if r.category is Free {
        2int
    } else {
        0int
    }) + (if r.name == "advanced-oil-processing"@ {
        1int
    } else {
        0int
    })
}

/// The index of the preferred resolvable recipe among the first `n` recipes
/// of the graph; later recipes win ties.
pub open spec fn best_upto(w: WorldV, item: ItemV, n: int) -> Option<int>
    decreases n,
{
    if n <= 0 {
        None
    } else {
        let prev = best_upto(w, item, n - 1);
        if resolvable(w, item, w.graph.recipes[n - 1].1) {
            match prev {
                None => Some(n - 1),
                Some(b) => if key_rank(w.graph.recipes[n - 1].1) >= key_rank(
                    w.graph.recipes[b].1,
                ) {
                    Some(n - 1)
                } else {
                    Some(b)
                },
            }
        } else {
            prev
        }
    }
}

/// Recipe resolution: a burner energy demand resolves to the preferred
/// fuel's burning recipe; anything else resolves to the preferred recipe
/// among those that yield the item on an owned machine.
pub open spec fn find_recipe_model(w: WorldV, item: ItemV) -> Result<Seq<char>, PlanErrorV> {
    match item {
        ItemV::Energy {
            fuel_category: Some(cat),
            energy_type: crate::graph::EnergyType::Burner,
        } => {
            if dict_has(w.preferred_fuel, cat) {
                Ok(
                    fuel_recipe_name(
                        item_name(w.preferred_fuel[dict_idx(w.preferred_fuel, cat)].1),
                        cat,
                    ),
                )
            } else {
                Err(PlanErrorV::NoPreferredFuel { category: cat })
            }
        },
        _ => {
            match best_upto(w, item, w.graph.recipes.len() as int) {
                Some(i) => Ok(w.graph.recipes[i].1.name),
                None => Err(PlanErrorV::NoRecipeFound { item }),
            }
        },
    }
}

/// Whether some machine the world owns covers category `c`.
fn covered(world: &World, c: &Category) -> (r: bool)
    requires
        world.wf(),
    ensures
        r == category_covered(world@, c@),
{
    let n = world.machines().len();
    let mut i: usize = 0;
    while i < n
        invariant
            wf_world(world@),
            n == world@.machines.len(),
            i <= n,
            forall|j: int|
                0 <= j < i ==> !{
                    let name = (#[trigger] world@.machines[j]).0;
                    dict_has(world@.graph.machines, name) && world@.graph.machines[dict_idx(
                        world@.graph.machines,
                        name,
                    )].1.categories.contains(c@)
                },
        decreases n - i,
    {
        let name = world.machines().key_at(i);
        match world.graph().machines.get(name.as_str()) {
            Some(m) => {
                if machine_covers(m, c) {
                    return true;
                }
            },
            None => {},
        }
        i += 1;
    }
    false
}

/// Whether recipe `rec` may produce `item` in this world.
fn recipe_resolvable(world: &World, item: &Item, rec: &Recipe) -> (r: bool)
    requires
        world.wf(),
    ensures
        r == resolvable(world@, item@, rec@),
{
    if rec.results.find(item).is_none() {
        return false;
    }
    if !covered(world, &rec.category) {
        return false;
    }
    if item.is("coal") && str_contains(rec.name.as_str(), "pickaxe") {
        return false;
    }
    if str_contains(rec.name.as_str(), "barrel") {
        return false;
    }
    if str_eq(rec.name.as_str(), "coal-liquefaction") {
        return false;
    }
    true
}

/// The resolution preference rank of a recipe.
fn recipe_rank(rec: &Recipe) -> (r: u8)
    ensures
        r as int == key_rank(rec@),
{
    let free: u8 = match &rec.category {
        Category::Free => 2,
        _ => 0,
    };
    let adv: u8 = if str_eq(rec.name.as_str(), "advanced-oil-processing") {
        1
    } else {
        0
    };
    free + adv
}

/// Resolve an item to the recipe that shall produce it.
pub fn find_recipe_for(world: &World, item: &Item) -> (r: Result<String, PlanError>)
    requires
        world.wf(),
    ensures
        match find_recipe_model(world@, item@) {
            Ok(n) => r matches Ok(s) && s@ == n,
            Err(e) => r matches Err(pe) && pe@ == e,
        },
{
    match item {
        Item::Energy { fuel_category: Some(cat), energy_type: crate::graph::EnergyType::Burner } => {
            match world.preferred_fuel().get(cat.as_str()) {
                Some(fuel) => {
                    proof {
                        let idx = dict_idx(world@.preferred_fuel, cat@);
                        assert(world@.preferred_fuel[idx].1 is Tangible);
                    }
                    let fuel_name = fuel.name();
                    let mut s = fuel_name.clone();
                    s = s.concat(" ");
                    s = s.concat(cat.as_str());
                    s = s.concat(" burnable fuel energy");
                    proof {
                        assert(s@ =~= fuel_recipe_name(item_name(fuel@), cat@));
                    }
                    Ok(s)
                },
                None => Err(PlanError::NoPreferredFuel { category: cat.clone() }),
            }
        },
        _ => {
            let n = world.graph().recipes.len();
            let mut best: Option<usize> = None;
            let mut best_rank: u8 = 0;
            let mut i: usize = 0;
            while i < n
                invariant
                    wf_world(world@),
                    n == world@.graph.recipes.len(),
                    i <= n,
                    !(item@ matches ItemV::Energy {
                        fuel_category: Some(_),
                        energy_type: crate::graph::EnergyType::Burner,
                    }),
                    match best {
                        Some(b) => best_upto(world@, item@, i as int) == Some(b as int) && b < n
                            && best_rank as int == key_rank(world@.graph.recipes[b as int].1),
                        None => best_upto(world@, item@, i as int) is None,
                    },
                decreases n - i,
            {
                let rec = world.graph().recipes.val_at(i);
                if recipe_resolvable(world, item, rec) {
                    let rank = recipe_rank(rec);
                    match best {
                        Some(_) => {
                            if rank >= best_rank {
                                best = Some(i);
                                best_rank = rank;
                            }
                        },
                        None => {
                            best = Some(i);
                            best_rank = rank;
                        },
                    }
                }
                i += 1;
            }
            match best {
                Some(b) => {
                    let name = world.graph().recipes.val_at(b).name.clone();
                    proof {
                        assert(world@.graph.recipes[b as int].1.name == world@.graph.recipes[
                            b as int].0);
                    }
                    Ok(name)
                },
                None => Err(PlanError::NoRecipeFound { item: item.clone() }),
            }
        },
    }
}


/// What one planning round decided: how often each recipe fires, which
/// machines are built, and the single-machine occupancy per machine.
#[verifier::ext_equal]
pub struct StepV {
    pub crafts: Seq<(Seq<char>, int)>,
    pub builds: Seq<(Seq<char>, int)>,
    pub times: Seq<(Seq<char>, int)>,
}

/// The work ledger of one planning round.
#[derive(Debug)]
pub struct ExecutedStep {
    pub crafts: Dict<Number<One>>,
    pub builds: Dict<Number<One>>,
    pub single_machine_time: Dict<Number<Seconds>>,
}

impl View for ExecutedStep {
    type V = StepV;

    open spec fn view(&self) -> StepV {
        StepV {
            crafts: self.crafts@,
            builds: self.builds@,
            times: self.single_machine_time@,
        }
    }
}

impl ExecutedStep {
    /// All three ledgers carry unique keys.
    pub open spec fn wf(&self) -> bool {
        wf_step(self@)
    }

    /// An empty ledger.
    pub fn new() -> (r: Self)
        ensures
            r@ == empty_step(),
            r.wf(),
    {
        let r = ExecutedStep {
            crafts: Dict::new(),
            builds: Dict::new(),
            single_machine_time: Dict::new(),
        };
        proof {
            assert(r@.crafts =~= empty_step().crafts);
            assert(r@.builds =~= empty_step().builds);
            assert(r@.times =~= empty_step().times);
        }
        r
    }
}

/// Step ledgers with unique keys.
pub open spec fn wf_step(s: StepV) -> bool {
    &&& crate::dict::dict_keys_unique(s.crafts)
    &&& crate::dict::dict_keys_unique(s.builds)
    &&& crate::dict::dict_keys_unique(s.times)
}

/// The ledger of a round that has decided nothing yet.
pub open spec fn empty_step() -> StepV {
    StepV { crafts: Seq::empty(), builds: Seq::empty(), times: Seq::empty() }
}

/// How deep a demand expansion may recurse before it is declared cyclic.
pub const EXPAND_DEPTH: u64 = 64;

/// The machine record stored under `name`.
pub open spec fn machine_entry(g: crate::graph::GraphV, name: Seq<char>) -> MachineV {
    g.machines[dict_idx(g.machines, name)].1
}

/// Whether the graph machine called `name` covers category `c`.
pub open spec fn covers_spec(g: crate::graph::GraphV, name: Seq<char>, c: CategoryV) -> bool {
    dict_has(g.machines, name) && machine_entry(g, name).categories.contains(c)
}

/// The combined crafting speed of the owned machines covering `c`, over the
/// first `n` owned machine entries: the sum of speed times owned count.
pub open spec fn total_speed(w: WorldV, c: CategoryV, n: int) -> int
    decreases n,
{
    if n <= 0 {
        0
    } else {
        let prev = total_speed(w, c, n - 1);
        let name = w.machines[n - 1].0;
        let count = w.machines[n - 1].1;
        if covers_spec(w.graph, name, c) {
            spec_add(prev, spec_mul(machine_entry(w.graph, name).crafting_speed, count))
        } else {
            prev
        }
    }
}

/// Share `crafts` firings of a recipe with time `t` across the first `n`
/// owned machine entries covering `c`: each machine group takes crafts in
/// proportion to its share of `total` speed, and its single-machine occupancy
/// is its share of the crafts times the recipe time over its speed.
pub open spec fn add_times(
    w: WorldV,
    c: CategoryV,
    crafts: int,
    t: int,
    total: int,
    n: int,
    times: Seq<(Seq<char>, int)>,
) -> Seq<(Seq<char>, int)>
    decreases n,
{
    if n <= 0 {
        times
    } else {
        let prev = add_times(w, c, crafts, t, total, n - 1, times);
        let name = w.machines[n - 1].0;
        let count = w.machines[n - 1].1;
        if covers_spec(w.graph, name, c) {
            let speed = machine_entry(w.graph, name).crafting_speed;
            let share = spec_div(spec_mul(spec_mul(crafts, speed), count), total);
            let single = spec_div(spec_mul(share, t), speed);
            dict_add(prev, name, single)
        } else {
            prev
        }
    }
}

/// Expanding a craft demand: resolve the item to a recipe, fire it often
/// enough to yield `amount` (rounding up), and recurse on its ingredients.
pub open spec fn expand_craft(
    w: WorldV,
    item: ItemV,
    amount: int,
    fuel: nat,
    step: StepV,
) -> Result<StepV, PlanErrorV>
    decreases fuel, 3int, 0int,
{
    if fuel == 0 {
        Err(PlanErrorV::DepthLimit)
    } else {
        match find_recipe_model(w, item) {
            Err(e) => Err(e),
            Ok(name) => {
                if dict_has(w.graph.recipes, name) {
                    let r = w.graph.recipes[dict_idx(w.graph.recipes, name)].1;
                    if amt_has(r.results, item) {
                        let crafts = spec_div_ceil(
                            amount,
                            r.results[amt_idx(r.results, item)].1,
                        );
                        expand_recipe(w, r, crafts, fuel, step)
                    } else {
                        Err(PlanErrorV::NoRecipeFound { item })
                    }
                } else {
                    Err(PlanErrorV::UnknownRecipe { name })
                }
            },
        }
    }
}

/// Expanding a recipe fired `crafts` times: record the firings, expand the
/// ingredients, and, unless the recipe is instantaneous, share the work
/// across the machines covering its category.
pub open spec fn expand_recipe(
    w: WorldV,
    r: RecipeV,
    crafts: int,
    fuel: nat,
    step: StepV,
) -> Result<StepV, PlanErrorV>
    decreases fuel, 1int, 0int,
{
    let step1 = StepV { crafts: dict_add(step.crafts, r.name, crafts), ..step };
    match expand_ingredients(w, r.ingredients, crafts, fuel, step1) {
        Err(e) => Err(e),
        Ok(s2) => match r.crafting_time {
            None => Ok(s2),
            Some(t) => {
                let total = total_speed(w, r.category, w.machines.len() as int);
                if total == 0 {
                    Err(PlanErrorV::NoMachineForCategory { recipe: r.name })
                } else {
                    Ok(
                        StepV {
                            times: add_times(
                                w,
                                r.category,
                                crafts,
                                t,
                                total,
                                w.machines.len() as int,
                                s2.times,
                            ),
                            ..s2
                        },
                    )
                }
            },
        },
    }
}

/// Expanding an ingredient list: demand each ingredient at the scaled
/// amount, spending one unit of recursion depth.
pub open spec fn expand_ingredients(
    w: WorldV,
    ings: Seq<(ItemV, int)>,
    crafts: int,
    fuel: nat,
    step: StepV,
) -> Result<StepV, PlanErrorV>
    decreases fuel, 0int, ings.len(),
{
    if ings.len() == 0 {
        Ok(step)
    } else if fuel == 0 {
        Err(PlanErrorV::DepthLimit)
    } else {
        match expand_craft(w, ings[0].0, spec_mul(ings[0].1, crafts), (fuel - 1) as nat, step) {
            Err(e) => Err(e),
            Ok(s1) => expand_ingredients(w, ings.drop_first(), crafts, fuel, s1),
        }
    }
}

/// Expanding a recipe demanded by name, bypassing resolution.
pub open spec fn expand_recipe_by_name(
    w: WorldV,
    name: Seq<char>,
    crafts: int,
    fuel: nat,
    step: StepV,
) -> Result<StepV, PlanErrorV>
    decreases fuel, 2int, 0int,
{
    if dict_has(w.graph.recipes, name) {
        expand_recipe(w, w.graph.recipes[dict_idx(w.graph.recipes, name)].1, crafts, fuel, step)
    } else {
        Err(PlanErrorV::UnknownRecipe { name })
    }
}

/// Expanding a build demand: record the build and craft the machine item.
pub open spec fn expand_build(
    w: WorldV,
    item: ItemV,
    amount: int,
    fuel: nat,
    step: StepV,
) -> Result<StepV, PlanErrorV>
    decreases fuel, 4int, 0int,
{
    match item {
        ItemV::Tangible { name } => {
            let step1 = StepV { builds: dict_add(step.builds, name, amount), ..step };
            expand_craft(w, item, amount, fuel, step1)
        },
        ItemV::Energy { .. } => Err(PlanErrorV::EnergyHasNoName),
    }
}

/// The combined speed of the owned machines covering `c`.
fn total_speed_exec(world: &World, c: &Category) -> (r: Number<One>)
    requires
        world.wf(),
    ensures
        r@ == total_speed(world@, c@, world@.machines.len() as int),
{
    let n = world.machines().len();
    let mut acc: Number<One> = Number::zero();
    let mut i: usize = 0;
    while i < n
        invariant
            wf_world(world@),
            n == world@.machines.len(),
            i <= n,
            acc@ == total_speed(world@, c@, i as int),
        decreases n - i,
    {
        let name = world.machines().key_at(i);
        let count = *world.machines().val_at(i);
        match world.graph().machines.get(name.as_str()) {
            Some(m) => {
                proof {
                    assert(dict_idx(world@.graph.machines, name@) == dict_idx(
                        world@.graph.machines,
                        world@.machines[i as int].0,
                    ));
                }
                if machine_covers(m, c) {
                    acc = acc.add(m.crafting_speed.mul(count));
                }
            },
            None => {},
        }
        i += 1;
    }
    acc
}

/// Accumulate the per-machine occupancy of `crafts` firings into the step.
fn add_times_exec(
    world: &World,
    step: &mut ExecutedStep,
    c: &Category,
    crafts: Number<One>,
    t: Number<One>,
    total: Number<One>,
)
    requires
        world.wf(),
        old(step).wf(),
    ensures
        final(step).wf(),
        final(step)@ == (StepV {
            times: add_times(
                world@,
                c@,
                crafts@,
                t@,
                total@,
                world@.machines.len() as int,
                old(step)@.times,
            ),
            ..old(step)@
        }),
{
    let n = world.machines().len();
    let mut i: usize = 0;
    while i < n
        invariant
            wf_world(world@),
            n == world@.machines.len(),
            i <= n,
            step.wf(),
            step@ == (StepV {
                times: add_times(
                    world@,
                    c@,
                    crafts@,
                    t@,
                    total@,
                    i as int,
                    old(step)@.times,
                ),
                ..old(step)@
            }),
        decreases n - i,
    {
        let name = world.machines().key_at(i);
        let count = *world.machines().val_at(i);
        match world.graph().machines.get(name.as_str()) {
            Some(m) => {
                proof {
                    assert(dict_idx(world@.graph.machines, name@) == dict_idx(
                        world@.graph.machines,
                        world@.machines[i as int].0,
                    ));
                }
                if machine_covers(m, c) {
                    let share = crafts.mul(m.crafting_speed).mul(count).div(total);
                    let single = share.mul(t).div(m.crafting_speed);
                    step.single_machine_time.add(name.as_str(), single.convert::<Seconds>());
                }
            },
            None => {},
        }
        i += 1;
    }
}

/// Expand a craft demand into the step ledger.
pub fn plan_craft(
    world: &World,
    step: &mut ExecutedStep,
    item: &Item,
    amount: Number<One>,
    fuel: u64,
) -> (r: Result<(), PlanError>)
    requires
        world.wf(),
        old(step).wf(),
    ensures
        final(step).wf(),
        match expand_craft(world@, item@, amount@, fuel as nat, old(step)@) {
            Ok(s) => r is Ok && final(step)@ == s,
            Err(e) => r matches Err(pe) && pe@ == e,
        },
    decreases fuel, 3int, 0int,
{
    if fuel == 0 {
        return Err(PlanError::DepthLimit);
    }
    let name = match find_recipe_for(world, item) {
        Ok(n) => n,
        Err(e) => {
            return Err(e);
        },
    };
    match world.graph().recipes.get(name.as_str()) {
        None => Err(PlanError::UnknownRecipe { name }),
        Some(rec) => {
            proof {
                let idx = dict_idx(world@.graph.recipes, name@);
                assert(crate::graph::wf_recipe_entry(world@.graph.recipes[idx]));
                assert(rec.results.wf());
            }
            match rec.results.get(item) {
                None => Err(PlanError::NoRecipeFound { item: item.clone() }),
                Some(res_amt) => {
                    let crafts = amount.div_ceil(res_amt);
                    plan_recipe(world, step, rec, crafts, fuel)
                },
            }
        },
    }
}

/// Expand `crafts` firings of a recipe into the step ledger.
pub fn plan_recipe(
    world: &World,
    step: &mut ExecutedStep,
    rec: &Recipe,
    crafts: Number<One>,
    fuel: u64,
) -> (r: Result<(), PlanError>)
    requires
        world.wf(),
        old(step).wf(),
    ensures
        final(step).wf(),
        match expand_recipe(world@, rec@, crafts@, fuel as nat, old(step)@) {
            Ok(s) => r is Ok && final(step)@ == s,
            Err(e) => r matches Err(pe) && pe@ == e,
        },
    decreases fuel, 1int, 0int,
{
    step.crafts.add(rec.name.as_str(), crafts);
    let ghost step1 = StepV { crafts: dict_add(old(step)@.crafts, rec@.name, crafts@), ..old(
        step,
    )@ };
    proof {
        assert(step@ == step1);
        assert(rec@.ingredients.skip(0) =~= rec@.ingredients);
    }
    let n = rec.ingredients.len();
    let mut i: usize = 0;
    while i < n
        invariant
            wf_world(world@),
            n == rec@.ingredients.len(),
            i <= n,
            step.wf(),
            step1 == (StepV {
                crafts: dict_add(old(step)@.crafts, rec@.name, crafts@),
                ..old(step)@
            }),
            expand_ingredients(
                world@,
                rec@.ingredients.skip(i as int),
                crafts@,
                fuel as nat,
                step@,
            ) == expand_ingredients(world@, rec@.ingredients, crafts@, fuel as nat, step1),
        decreases n - i,
    {
        if fuel == 0 {
            proof {
                assert(rec@.ingredients.skip(i as int).len() > 0);
            }
            return Err(PlanError::DepthLimit);
        }
        let ing_item = rec.ingredients.key_at(i).clone();
        let ing_amt = rec.ingredients.val_at(i);
        let ghost before = step@;
        let res = plan_craft(world, step, &ing_item, ing_amt.mul(crafts), fuel - 1);
        proof {
            assert(rec@.ingredients.skip(i as int)[0] == rec@.ingredients[i as int]);
            assert(rec@.ingredients.skip(i as int).drop_first() =~= rec@.ingredients.skip(
                i as int + 1,
            ));
        }
        match res {
            Ok(()) => {},
            Err(e) => {
                proof {
                    assert(expand_ingredients(
                        world@,
                        rec@.ingredients.skip(i as int),
                        crafts@,
                        fuel as nat,
                        before,
                    ) == Err::<StepV, PlanErrorV>(e@));
                    assert(expand_ingredients(
                        world@,
                        rec@.ingredients,
                        crafts@,
                        fuel as nat,
                        step1,
                    ) == Err::<StepV, PlanErrorV>(e@));
                    assert(expand_recipe(world@, rec@, crafts@, fuel as nat, old(step)@)
                        == Err::<StepV, PlanErrorV>(e@));
                }
                return Err(e);
            },
        }
        i += 1;
    }
    proof {
        assert(rec@.ingredients.skip(n as int).len() == 0);
        assert(expand_ingredients(
            world@,
            rec@.ingredients.skip(n as int),
            crafts@,
            fuel as nat,
            step@,
        ) == Ok::<StepV, PlanErrorV>(step@));
    }
    match &rec.crafting_time {
        None => Ok(()),
        Some(t) => {
            let total = total_speed_exec(world, &rec.category);
            if total.is_zero() {
                Err(PlanError::NoMachineForCategory { recipe: rec.name.clone() })
            } else {
                add_times_exec(world, step, &rec.category, crafts, *t, total);
                Ok(())
            }
        },
    }
}

/// Expand a recipe demanded by name into the step ledger.
pub fn plan_recipe_by_name(
    world: &World,
    step: &mut ExecutedStep,
    name: &str,
    crafts: Number<One>,
    fuel: u64,
) -> (r: Result<(), PlanError>)
    requires
        world.wf(),
        old(step).wf(),
    ensures
        final(step).wf(),
        match expand_recipe_by_name(world@, name@, crafts@, fuel as nat, old(step)@) {
            Ok(s) => r is Ok && final(step)@ == s,
            Err(e) => r matches Err(pe) && pe@ == e,
        },
    decreases fuel, 2int, 0int,
{
    match world.graph().recipes.get(name) {
        None => Err(PlanError::UnknownRecipe { name: String::from_str(name) }),
        Some(rec) => plan_recipe(world, step, rec, crafts, fuel),
    }
}

/// Expand a build demand into the step ledger.
pub fn plan_build(
    world: &World,
    step: &mut ExecutedStep,
    item: &Item,
    amount: Number<One>,
    fuel: u64,
) -> (r: Result<(), PlanError>)
    requires
        world.wf(),
        old(step).wf(),
    ensures
        final(step).wf(),
        match expand_build(world@, item@, amount@, fuel as nat, old(step)@) {
            Ok(s) => r is Ok && final(step)@ == s,
            Err(e) => r matches Err(pe) && pe@ == e,
        },
    decreases fuel, 4int, 0int,
{
    match item {
        Item::Tangible { name } => {
            step.builds.add(name.as_str(), amount);
            plan_craft(world, step, item, amount, fuel)
        },
        Item::Energy { .. } => Err(PlanError::EnergyHasNoName),
    }
}


/// How many feedback rounds the energy closure may take before it is
/// declared divergent.
pub const CLOSURE_ROUNDS: u64 = 64;

/// Drain one machine's energy usages for `t` drained machine-seconds: every
/// demand of at least one whole unit is fed back as a craft of the energy
/// item; smaller demands are dropped. Returns the grown step and whether
/// anything was fed back.
pub open spec fn drain_usages(
    w: WorldV,
    usages: Seq<(ItemV, int)>,
    t: int,
    step: StepV,
    fed: bool,
) -> Result<(StepV, bool), PlanErrorV>
    decreases usages.len(),
{
    if usages.len() == 0 {
        Ok((step, fed))
    } else {
        let d = spec_mul(usages[0].1, t);
        if d >= crate::qty::SCALE {
            match expand_craft(w, usages[0].0, d, EXPAND_DEPTH as nat, step) {
                Err(e) => Err(e),
                Ok(s1) => drain_usages(w, usages.drop_first(), t, s1, true),
            }
        } else {
            drain_usages(w, usages.drop_first(), t, step, fed)
        }
    }
}

/// Drain a batch of pending per-machine occupancy: accumulate each entry
/// into the running totals and feed back its machine's energy demands.
pub open spec fn drain_pending(
    w: WorldV,
    pending: Seq<(Seq<char>, int)>,
    totals: Seq<(Seq<char>, int)>,
    step: StepV,
    fed: bool,
) -> Result<(Seq<(Seq<char>, int)>, StepV, bool), PlanErrorV>
    decreases pending.len(),
{
    if pending.len() == 0 {
        Ok((totals, step, fed))
    } else {
        let name = pending[0].0;
        let t = pending[0].1;
        let totals1 = dict_add(totals, name, t);
        if dict_has(w.graph.machines, name) {
            match drain_usages(w, machine_entry(w.graph, name).energy_usage, t, step, fed) {
                Err(e) => Err(e),
                Ok((s1, fed1)) => drain_pending(w, pending.drop_first(), totals1, s1, fed1),
            }
        } else {
            Err(PlanErrorV::UnknownMachine { name })
        }
    }
}

/// The energy closure: repeatedly drain the pending occupancy into the
/// running totals, feeding machine energy demands back as crafts, until a
/// round feeds nothing more. Returns the settled step (its times are the
/// accumulated totals) and the residual batch: the last drained occupancy,
/// all of whose demands were below one unit.
pub open spec fn closure_loop(
    w: WorldV,
    step: StepV,
    totals: Seq<(Seq<char>, int)>,
    rounds: nat,
) -> Result<(StepV, Seq<(Seq<char>, int)>), PlanErrorV>
    decreases rounds,
{
    let pending = step.times;
    if pending.len() == 0 {
        Ok((StepV { times: totals, ..step }, pending))
    } else if rounds == 0 {
        Err(PlanErrorV::RoundLimit)
    } else {
        let step0 = StepV { times: Seq::empty(), ..step };
        match drain_pending(w, pending, totals, step0, false) {
            Err(e) => Err(e),
            Ok((totals1, s1, fed)) => {
                if fed {
                    closure_loop(w, s1, totals1, (rounds - 1) as nat)
                } else {
                    Ok((StepV { times: totals1, ..s1 }, pending))
                }
            },
        }
    }
}

/// Drain one machine's energy usages for `t` drained machine-seconds.
fn drain_usages_exec(
    world: &World,
    step: &mut ExecutedStep,
    m: &crate::graph::Machine,
    t: Number<Seconds>,
    fed: bool,
) -> (r: Result<bool, PlanError>)
    requires
        world.wf(),
        old(step).wf(),
    ensures
        final(step).wf(),
        match drain_usages(world@, m@.energy_usage, t@, old(step)@, fed) {
            Ok(p) => r matches Ok(f2) && final(step)@ == p.0 && f2 == p.1,
            Err(e) => r matches Err(pe) && pe@ == e,
        },
{
    let mut cur_fed = fed;
    let nu = m.energy_usage.len();
    let mut j: usize = 0;
    proof {
        assert(m@.energy_usage.skip(0) =~= m@.energy_usage);
    }
    while j < nu
        invariant
            wf_world(world@),
            step.wf(),
            nu == m@.energy_usage.len(),
            j <= nu,
            drain_usages(world@, m@.energy_usage.skip(j as int), t@, step@, cur_fed)
                == drain_usages(world@, m@.energy_usage, t@, old(step)@, fed),
        decreases nu - j,
    {
        let eitem = m.energy_usage.key_at(j);
        let usage = m.energy_usage.val_at(j);
        proof {
            assert(m@.energy_usage.skip(j as int)[0] == m@.energy_usage[j as int]);
            assert(m@.energy_usage.skip(j as int).drop_first() =~= m@.energy_usage.skip(
                j as int + 1,
            ));
        }
        let d = usage.mul(t.convert::<One>());
        if d.micro() >= crate::qty::SCALE {
            let ghost before = step@;
            let res = plan_craft(world, step, eitem, d, EXPAND_DEPTH);
            match res {
                Ok(()) => {},
                Err(e) => {
                    proof {
                        assert(drain_usages(
                            world@,
                            m@.energy_usage.skip(j as int),
                            t@,
                            before,
                            cur_fed,
                        ) == Err::<(StepV, bool), PlanErrorV>(e@));
                    }
                    return Err(e);
                },
            }
            cur_fed = true;
        }
        j += 1;
    }
    proof {
        assert(m@.energy_usage.skip(nu as int).len() == 0);
    }
    Ok(cur_fed)
}

/// Drain a batch of pending occupancy into the running totals, feeding
/// machine energy demands back as crafts.
fn drain_pending_exec(
    world: &World,
    step: &mut ExecutedStep,
    totals: &mut Dict<Number<Seconds>>,
    pending: &Dict<Number<Seconds>>,
) -> (r: Result<bool, PlanError>)
    requires
        world.wf(),
        old(step).wf(),
        old(totals).wf(),
    ensures
        final(step).wf(),
        final(totals).wf(),
        match drain_pending(world@, pending@, old(totals)@, old(step)@, false) {
            Ok(tr) => r matches Ok(f) && final(totals)@ == tr.0 && final(step)@ == tr.1 && f
                == tr.2,
            Err(e) => r matches Err(pe) && pe@ == e,
        },
{
    let mut cur_fed = false;
    let np = pending.len();
    let mut i: usize = 0;
    proof {
        assert(pending@.skip(0) =~= pending@);
    }
    while i < np
        invariant
            wf_world(world@),
            step.wf(),
            totals.wf(),
            np == pending@.len(),
            i <= np,
            drain_pending(world@, pending@.skip(i as int), totals@, step@, cur_fed)
                == drain_pending(world@, pending@, old(totals)@, old(step)@, false),
        decreases np - i,
    {
        let name = pending.key_at(i);
        let t = *pending.val_at(i);
        proof {
            assert(pending@.skip(i as int)[0] == pending@[i as int]);
            assert(pending@.skip(i as int).drop_first() =~= pending@.skip(i as int + 1));
        }
        totals.add(name.as_str(), t);
        match world.graph().machines.get(name.as_str()) {
            None => {
                return Err(PlanError::UnknownMachine { name: name.clone() });
            },
            Some(m) => {
                proof {
                    assert(dict_idx(world@.graph.machines, name@) == dict_idx(
                        world@.graph.machines,
                        pending@[i as int].0,
                    ));
                }
                let res = drain_usages_exec(world, step, m, t, cur_fed);
                match res {
                    Ok(f) => {
                        cur_fed = f;
                    },
                    Err(e) => {
                        return Err(e);
                    },
                }
            },
        }
        i += 1;
    }
    proof {
        assert(pending@.skip(np as int).len() == 0);
    }
    Ok(cur_fed)
}

/// Close the energy-feedback loop of a planned step.
pub fn close_energy(world: &World, step: &mut ExecutedStep) -> (r: Result<(), PlanError>)
    requires
        world.wf(),
        old(step).wf(),
    ensures
        final(step).wf(),
        match closure_loop(world@, old(step)@, Seq::empty(), CLOSURE_ROUNDS as nat) {
            Ok(p) => r is Ok && final(step)@ == p.0,
            Err(e) => r matches Err(pe) && pe@ == e,
        },
{
    let mut totals: Dict<Number<Seconds>> = Dict::new();
    let mut rounds: u64 = CLOSURE_ROUNDS;
    proof {
        assert(totals@ =~= Seq::<(Seq<char>, int)>::empty());
    }
    loop
        invariant
            wf_world(world@),
            step.wf(),
            totals.wf(),
            closure_loop(world@, step@, totals@, rounds as nat) == closure_loop(
                world@,
                old(step)@,
                Seq::empty(),
                CLOSURE_ROUNDS as nat,
            ),
        decreases rounds,
    {
        if step.single_machine_time.len() == 0 {
            step.single_machine_time = totals;
            return Ok(());
        }
        if rounds == 0 {
            return Err(PlanError::RoundLimit);
        }
        rounds -= 1;
        let ghost entry_step = step@;
        let ghost entry_totals = totals@;
        let mut pending: Dict<Number<Seconds>> = Dict::new();
        core::mem::swap(&mut pending, &mut step.single_machine_time);
        proof {
            assert(pending@ == entry_step.times);
            assert(step@ == (StepV { times: Seq::<(Seq<char>, int)>::empty(), ..entry_step }));
        }
        let res = drain_pending_exec(world, step, &mut totals, &pending);
        match res {
            Err(e) => {
                proof {
                    assert(closure_loop(world@, entry_step, entry_totals, rounds as nat + 1)
                        == Err::<(StepV, Seq<(Seq<char>, int)>), PlanErrorV>(e@));
                }
                return Err(e);
            },
            Ok(f) => {
                if !f {
                    proof {
                        assert(closure_loop(world@, entry_step, entry_totals, rounds as nat + 1)
                            matches Ok(p) && p.0 == (StepV { times: totals@, ..step@ }));
                    }
                    step.single_machine_time = totals;
                    return Ok(());
                }
            },
        }
    }
}


/// Divide each pending single-machine occupancy by the owned count of its
/// machine, giving the wall-clock time of each machine group.
pub open spec fn machine_times_model(
    w: WorldV,
    times: Seq<(Seq<char>, int)>,
    acc: Seq<(Seq<char>, int)>,
) -> Result<Seq<(Seq<char>, int)>, PlanErrorV>
    decreases times.len(),
{
    if times.len() == 0 {
        Ok(acc)
    } else {
        let name = times[0].0;
        let t = times[0].1;
        if dict_has(w.machines, name) {
            let count = w.machines[dict_idx(w.machines, name)].1;
            machine_times_model(w, times.drop_first(), acc.push((name, spec_div(t, count))))
        } else {
            Err(PlanErrorV::UnknownMachine { name })
        }
    }
}

/// Fold a ledger into a running table, entry by entry, saturating.
pub open spec fn add_all(
    base: Seq<(Seq<char>, int)>,
    entries: Seq<(Seq<char>, int)>,
) -> Seq<(Seq<char>, int)>
    decreases entries.len(),
{
    if entries.len() == 0 {
        base
    } else {
        add_all(dict_add(base, entries[0].0, entries[0].1), entries.drop_first())
    }
}

/// Materialize built machines: every build must name a machine of the graph.
pub open spec fn apply_builds(
    g: crate::graph::GraphV,
    machines: Seq<(Seq<char>, int)>,
    builds: Seq<(Seq<char>, int)>,
) -> Result<Seq<(Seq<char>, int)>, PlanErrorV>
    decreases builds.len(),
{
    if builds.len() == 0 {
        Ok(machines)
    } else if dict_has(g.machines, builds[0].0) {
        apply_builds(g, dict_add(machines, builds[0].0, builds[0].1), builds.drop_first())
    } else {
        Err(PlanErrorV::UnknownMachine { name: builds[0].0 })
    }
}

/// The saturating sum of the values of a ledger.
pub open spec fn sum_values(s: Seq<(Seq<char>, int)>) -> int
    decreases s.len(),
{
    if s.len() == 0 {
        0
    } else {
        spec_add(sum_values(s.drop_last()), s.last().1)
    }
}

/// The largest value of a ledger, or zero when it is empty.
pub open spec fn max_values(s: Seq<(Seq<char>, int)>) -> int
    decreases s.len(),
{
    if s.len() == 0 {
        0
    } else {
        let prev = max_values(s.drop_last());
        if s.last().1 >= prev {
            s.last().1
        } else {
            prev
        }
    }
}

/// Apply a settled step to the world: log the crafts, materialize the
/// builds, and advance the clocks. The step's machine-seconds all count
/// toward `total_machine_time`; the wall clock advances by the slowest
/// machine group's wall-clock time, the groups running in parallel.
pub open spec fn apply_step(w: WorldV, s: StepV) -> Result<WorldV, PlanErrorV> {
    match machine_times_model(w, s.times, Seq::empty()) {
        Err(e) => Err(e),
        Ok(wall) => {
            let crafts = add_all(w.total_crafts, s.crafts);
            match apply_builds(w.graph, w.machines, s.builds) {
                Err(e) => Err(e),
                Ok(machines) => Ok(
                    WorldV {
                        total_crafts: crafts,
                        machines,
                        total_machine_time: spec_add(w.total_machine_time, sum_values(wall)),
                        time: spec_add(w.time, max_values(wall)),
                        ..w
                    },
                ),
            }
        },
    }
}

/// The view of a wall-clock table under construction.
pub open spec fn wall_view(s: Seq<(String, Number<Seconds>)>) -> Seq<(Seq<char>, int)> {
    s.map_values(|p: (String, Number<Seconds>)| (p.0@, p.1@))
}

impl ExecutedStep {
    /// Apply this settled step to the world.
    pub fn execute(&self, world: &mut World) -> (r: Result<(), PlanError>)
        requires
            old(world).wf(),
        ensures
            final(world).wf(),
            match apply_step(old(world)@, self@) {
                Ok(w2) => r is Ok && final(world)@ == w2,
                Err(e) => r matches Err(pe) && pe@ == e,
            },
            r is Err ==> final(world)@ == old(world)@,
    {
        // Wall-clock time per machine group: single-machine occupancy over
        // the owned count.
        let mut wall: Vec<(String, Number<Seconds>)> = Vec::new();
        let nt = self.single_machine_time.len();
        let mut i: usize = 0;
        proof {
            assert(self@.times.skip(0) =~= self@.times);
            assert(wall_view(wall@) =~= Seq::<(Seq<char>, int)>::empty());
        }
        while i < nt
            invariant
                wf_world(old(world)@),
                world@ == old(world)@,
                nt == self@.times.len(),
                i <= nt,
                machine_times_model(world@, self@.times.skip(i as int), wall_view(wall@))
                    == machine_times_model(world@, self@.times, Seq::empty()),
            decreases nt - i,
        {
            let name = self.single_machine_time.key_at(i);
            let t = *self.single_machine_time.val_at(i);
            proof {
                assert(self@.times.skip(i as int)[0] == self@.times[i as int]);
                assert(self@.times.skip(i as int).drop_first() =~= self@.times.skip(i as int + 1));
            }
            match world.machines().get_copied(name.as_str()) {
                None => {
                    return Err(PlanError::UnknownMachine { name: name.clone() });
                },
                Some(count) => {
                    proof {
                        assert(dict_idx(world@.machines, name@) == dict_idx(
                            world@.machines,
                            self@.times[i as int].0,
                        ));
                    }
                    let ghost wv0 = wall_view(wall@);
                    let w = t.convert::<One>().div(count).convert::<Seconds>();
                    wall.push((name.clone(), w));
                    proof {
                        assert(wall_view(wall@) =~= wv0.push((name@, w@)));
                    }
                },
            }
            i += 1;
        }
        let ghost wallv = wall_view(wall@);
        proof {
            assert(self@.times.skip(nt as int).len() == 0);
            assert(machine_times_model(old(world)@, self@.times, Seq::empty())
                == Ok::<Seq<(Seq<char>, int)>, PlanErrorV>(wallv));
        }
        // Check every build against the graph before touching the world, so
        // that a failing step leaves the world exactly as it was.
        let nb0 = self.builds.len();
        let mut i: usize = 0;
        let ghost mut macc = world@.machines;
        proof {
            assert(self@.builds.skip(0) =~= self@.builds);
        }
        while i < nb0
            invariant
                wf_world(old(world)@),
                world@ == old(world)@,
                nb0 == self@.builds.len(),
                i <= nb0,
                machine_times_model(old(world)@, self@.times, Seq::empty()) == Ok::<
                    Seq<(Seq<char>, int)>,
                    PlanErrorV,
                >(wallv),
                apply_builds(world@.graph, macc, self@.builds.skip(i as int)) == apply_builds(
                    old(world)@.graph,
                    old(world)@.machines,
                    self@.builds,
                ),
            decreases nb0 - i,
        {
            let name = self.builds.key_at(i);
            proof {
                assert(self@.builds.skip(i as int)[0] == self@.builds[i as int]);
                assert(self@.builds.skip(i as int).drop_first() =~= self@.builds.skip(
                    i as int + 1,
                ));
            }
            if !world.graph().machines.contains(name.as_str()) {
                proof {
                    assert(apply_builds(world@.graph, macc, self@.builds.skip(i as int))
                        == Err::<Seq<(Seq<char>, int)>, PlanErrorV>(PlanErrorV::UnknownMachine {
                        name: name@,
                    }));
                    assert(apply_step(old(world)@, self@) == Err::<WorldV, PlanErrorV>(
                        PlanErrorV::UnknownMachine { name: name@ },
                    ));
                }
                return Err(PlanError::UnknownMachine { name: name.clone() });
            }
            proof {
                macc = crate::dict::dict_add(macc, self@.builds[i as int].0, self@.builds[
                    i as int].1);
            }
            i += 1;
        }
        proof {
            assert(self@.builds.skip(nb0 as int).len() == 0);
            assert(apply_builds(old(world)@.graph, old(world)@.machines, self@.builds) is Ok);
        }
        // Log the crafts.
        let nc = self.crafts.len();
        let mut i: usize = 0;
        proof {
            assert(self@.crafts.skip(0) =~= self@.crafts);
        }
        while i < nc
            invariant
                wf_world(world@),
                nc == self@.crafts.len(),
                i <= nc,
                world@ == (WorldV { total_crafts: world@.total_crafts, ..old(world)@ }),
                add_all(world@.total_crafts, self@.crafts.skip(i as int)) == add_all(
                    old(world)@.total_crafts,
                    self@.crafts,
                ),
            decreases nc - i,
        {
            let name = self.crafts.key_at(i);
            let amount = *self.crafts.val_at(i);
            proof {
                assert(self@.crafts.skip(i as int)[0] == self@.crafts[i as int]);
                assert(self@.crafts.skip(i as int).drop_first() =~= self@.crafts.skip(
                    i as int + 1,
                ));
            }
            world.add_total_craft(name.as_str(), amount);
            i += 1;
        }
        proof {
            assert(self@.crafts.skip(nc as int).len() == 0);
        }
        // Materialize the builds.
        let nb = self.builds.len();
        let mut i: usize = 0;
        proof {
            assert(self@.builds.skip(0) =~= self@.builds);
        }
        while i < nb
            invariant
                wf_world(world@),
                nb == self@.builds.len(),
                i <= nb,
                world@ == (WorldV {
                    total_crafts: world@.total_crafts,
                    machines: world@.machines,
                    ..old(world)@
                }),
                world@.total_crafts == add_all(old(world)@.total_crafts, self@.crafts),
                machine_times_model(old(world)@, self@.times, Seq::empty()) == Ok::<
                    Seq<(Seq<char>, int)>,
                    PlanErrorV,
                >(wallv),
                apply_builds(old(world)@.graph, old(world)@.machines, self@.builds) is Ok,
                apply_builds(world@.graph, world@.machines, self@.builds.skip(i as int))
                    == apply_builds(old(world)@.graph, old(world)@.machines, self@.builds),
            decreases nb - i,
        {
            let name = self.builds.key_at(i);
            let amount = *self.builds.val_at(i);
            proof {
                assert(self@.builds.skip(i as int)[0] == self@.builds[i as int]);
                assert(self@.builds.skip(i as int).drop_first() =~= self@.builds.skip(
                    i as int + 1,
                ));
                // Every build was checked against the graph before anything
                // was applied, so the fold cannot fail here.
                assert(dict_has(world@.graph.machines, name@));
            }
            world.add_machine_built(name.as_str(), amount);
            i += 1;
        }
        proof {
            assert(self@.builds.skip(nb as int).len() == 0);
        }
        // Advance the clocks.
        let mut total: Number<Seconds> = Number::zero();
        let mut largest: Number<Seconds> = Number::zero();
        let nw = wall.len();
        let mut i: usize = 0;
        proof {
            assert(wallv.take(0) =~= Seq::<(Seq<char>, int)>::empty());
        }
        while i < nw
            invariant
                nw == wall@.len(),
                i <= nw,
                wallv == wall_view(wall@),
                total@ == sum_values(wallv.take(i as int)),
                largest@ == max_values(wallv.take(i as int)),
            decreases nw - i,
        {
            let t = wall[i].1;
            proof {
                assert(wallv.take(i as int + 1).drop_last() =~= wallv.take(i as int));
                assert(wallv.take(i as int + 1).last() == wallv[i as int]);
                assert(wallv[i as int].1 == t@);
            }
            total = total.add(t);
            largest = largest.max(t);
            i += 1;
        }
        proof {
            assert(wallv.take(nw as int) =~= wallv);
        }
        world.advance_clocks(total, largest);
        proof {
            let m = apply_step(old(world)@, self@);
            assert(m matches Ok(w2) && world@ =~= w2);
        }
        Ok(())
    }
}


/// A bundle of goals: build machines, craft items, fire recipes by name.
#[derive(Debug)]
pub struct Tasks {
    pub build: crate::graph::ItemAmounts,
    pub craft: crate::graph::ItemAmounts,
    pub craft_recipe: Dict<Number<One>>,
}

/// The mathematical shape of a `Tasks` bundle.
#[verifier::ext_equal]
pub struct TasksV {
    pub build: Seq<(ItemV, int)>,
    pub craft: Seq<(ItemV, int)>,
    pub craft_recipe: Seq<(Seq<char>, int)>,
}

impl View for Tasks {
    type V = TasksV;

    open spec fn view(&self) -> TasksV {
        TasksV { build: self.build@, craft: self.craft@, craft_recipe: self.craft_recipe@ }
    }
}

impl crate::dict::ViewClone for Tasks {
    fn clone_view(&self) -> (r: Self) {
        let r = Tasks {
            build: self.build.clone(),
            craft: self.craft.clone(),
            craft_recipe: self.craft_recipe.clone_dict(),
        };
        proof {
            assert(r@ =~= self@);
        }
        r
    }
}

impl Tasks {
    /// An empty bundle.
    pub fn new() -> (r: Self)
        ensures
            r@ == (TasksV {
                build: Seq::<(ItemV, int)>::empty(),
                craft: Seq::<(ItemV, int)>::empty(),
                craft_recipe: Seq::<(Seq<char>, int)>::empty(),
            }),
    {
        let r = Tasks {
            build: crate::graph::ItemAmounts::new(),
            craft: crate::graph::ItemAmounts::new(),
            craft_recipe: Dict::new(),
        };
        proof {
            assert(r@ =~= (TasksV {
                build: Seq::<(ItemV, int)>::empty(),
                craft: Seq::<(ItemV, int)>::empty(),
                craft_recipe: Seq::<(Seq<char>, int)>::empty(),
            }));
        }
        r
    }
}

/// Expand every craft goal of a bundle.
pub open spec fn expand_craft_list(
    w: WorldV,
    items: Seq<(ItemV, int)>,
    step: StepV,
) -> Result<StepV, PlanErrorV>
    decreases items.len(),
{
    if items.len() == 0 {
        Ok(step)
    } else {
        match expand_craft(w, items[0].0, items[0].1, EXPAND_DEPTH as nat, step) {
            Err(e) => Err(e),
            Ok(s1) => expand_craft_list(w, items.drop_first(), s1),
        }
    }
}

/// Expand every named-recipe goal of a bundle.
pub open spec fn expand_recipe_list(
    w: WorldV,
    recs: Seq<(Seq<char>, int)>,
    step: StepV,
) -> Result<StepV, PlanErrorV>
    decreases recs.len(),
{
    if recs.len() == 0 {
        Ok(step)
    } else {
        match expand_recipe_by_name(w, recs[0].0, recs[0].1, EXPAND_DEPTH as nat, step) {
            Err(e) => Err(e),
            Ok(s1) => expand_recipe_list(w, recs.drop_first(), s1),
        }
    }
}

/// Expand every build goal of a bundle.
pub open spec fn expand_build_list(
    w: WorldV,
    items: Seq<(ItemV, int)>,
    step: StepV,
) -> Result<StepV, PlanErrorV>
    decreases items.len(),
{
    if items.len() == 0 {
        Ok(step)
    } else {
        match expand_build(w, items[0].0, items[0].1, EXPAND_DEPTH as nat, step) {
            Err(e) => Err(e),
            Ok(s1) => expand_build_list(w, items.drop_first(), s1),
        }
    }
}

/// One planning round: expand the bundle's goals into a step, close the
/// energy loop, and apply the settled step to the world.
pub open spec fn run_tasks(w: WorldV, t: TasksV) -> Result<WorldV, PlanErrorV> {
    match expand_craft_list(w, t.craft, empty_step()) {
        Err(e) => Err(e),
        Ok(s1) => match expand_recipe_list(w, t.craft_recipe, s1) {
            Err(e) => Err(e),
            Ok(s2) => match expand_build_list(w, t.build, s2) {
                Err(e) => Err(e),
                Ok(s3) => match closure_loop(w, s3, Seq::empty(), CLOSURE_ROUNDS as nat) {
                    Err(e) => Err(e),
                    Ok(p) => apply_step(w, p.0),
                },
            },
        },
    }
}

impl Tasks {
    /// Plan this bundle against the world and apply the outcome; a failing
    /// bundle leaves the world exactly as it was.
    pub fn execute(&self, world: &mut World) -> (r: Result<(), PlanError>)
        requires
            old(world).wf(),
        ensures
            final(world).wf(),
            match run_tasks(old(world)@, self@) {
                Ok(w2) => r is Ok && final(world)@ == w2,
                Err(e) => r matches Err(pe) && pe@ == e,
            },
            r is Err ==> final(world)@ == old(world)@,
    {
        let mut step = ExecutedStep::new();
        let nc = self.craft.len();
        let mut i: usize = 0;
        proof {
            assert(self@.craft.skip(0) =~= self@.craft);
        }
        while i < nc
            invariant
                wf_world(world@),
                world@ == old(world)@,
                nc == self@.craft.len(),
                i <= nc,
                step.wf(),
                expand_craft_list(world@, self@.craft.skip(i as int), step@) == expand_craft_list(
                    world@,
                    self@.craft,
                    empty_step(),
                ),
            decreases nc - i,
        {
            let item = self.craft.key_at(i);
            let amount = self.craft.val_at(i);
            proof {
                assert(self@.craft.skip(i as int)[0] == self@.craft[i as int]);
                assert(self@.craft.skip(i as int).drop_first() =~= self@.craft.skip(i as int + 1));
            }
            let res = plan_craft(&*world, &mut step, item, amount, EXPAND_DEPTH);
            match res {
                Ok(()) => {},
                Err(e) => {
                    return Err(e);
                },
            }
            i += 1;
        }
        proof {
            assert(self@.craft.skip(nc as int).len() == 0);
        }
        let ghost s1 = step@;
        let nr = self.craft_recipe.len();
        let mut i: usize = 0;
        proof {
            assert(self@.craft_recipe.skip(0) =~= self@.craft_recipe);
        }
        while i < nr
            invariant
                wf_world(world@),
                world@ == old(world)@,
                nr == self@.craft_recipe.len(),
                i <= nr,
                step.wf(),
                expand_craft_list(world@, self@.craft, empty_step()) == Ok::<StepV, PlanErrorV>(
                    s1,
                ),
                expand_recipe_list(world@, self@.craft_recipe.skip(i as int), step@)
                    == expand_recipe_list(world@, self@.craft_recipe, s1),
            decreases nr - i,
        {
            let name = self.craft_recipe.key_at(i);
            let crafts = *self.craft_recipe.val_at(i);
            proof {
                assert(self@.craft_recipe.skip(i as int)[0] == self@.craft_recipe[i as int]);
                assert(self@.craft_recipe.skip(i as int).drop_first() =~= self@.craft_recipe.skip(
                    i as int + 1,
                ));
            }
            let res = plan_recipe_by_name(&*world, &mut step, name.as_str(), crafts, EXPAND_DEPTH);
            match res {
                Ok(()) => {},
                Err(e) => {
                    return Err(e);
                },
            }
            i += 1;
        }
        proof {
            assert(self@.craft_recipe.skip(nr as int).len() == 0);
        }
        let ghost s2 = step@;
        let nb = self.build.len();
        let mut i: usize = 0;
        proof {
            assert(self@.build.skip(0) =~= self@.build);
        }
        while i < nb
            invariant
                wf_world(world@),
                world@ == old(world)@,
                nb == self@.build.len(),
                i <= nb,
                step.wf(),
                expand_craft_list(world@, self@.craft, empty_step()) == Ok::<StepV, PlanErrorV>(
                    s1,
                ),
                expand_recipe_list(world@, self@.craft_recipe, s1) == Ok::<StepV, PlanErrorV>(s2),
                expand_build_list(world@, self@.build.skip(i as int), step@) == expand_build_list(
                    world@,
                    self@.build,
                    s2,
                ),
            decreases nb - i,
        {
            let item = self.build.key_at(i);
            let amount = self.build.val_at(i);
            proof {
                assert(self@.build.skip(i as int)[0] == self@.build[i as int]);
                assert(self@.build.skip(i as int).drop_first() =~= self@.build.skip(i as int + 1));
            }
            let res = plan_build(&*world, &mut step, item, amount, EXPAND_DEPTH);
            match res {
                Ok(()) => {},
                Err(e) => {
                    return Err(e);
                },
            }
            i += 1;
        }
        proof {
            assert(self@.build.skip(nb as int).len() == 0);
        }
        let res = close_energy(&*world, &mut step);
        match res {
            Ok(()) => {},
            Err(e) => {
                return Err(e);
            },
        }
        step.execute(world)
    }
}

} // verus!
