//! Normalizing the decoded prototype catalog into the uniform graph.
//!
//! The catalog is the prototype dump as plain values; the loader that decodes
//! the game's JSON hands it over unchanged. Every entry here becomes a
//! `Recipe` or a `Machine` (or both), and every constant-cost technology a
//! `Research` with a synthesized research recipe.

use vstd::prelude::*;
use vstd::string::StringExecFns;

use crate::dict::Dict;
use crate::dict::dict_has;
use crate::dict::dict_set;
use crate::graph::Category;
use crate::graph::EnergyType;
use crate::graph::Item;
use crate::graph::ItemV;
use crate::graph::ItemAmounts;
use crate::graph::Machine;
use crate::graph::MachineV;
use crate::graph::Recipe;
use crate::graph::RecipeV;
use crate::graph::amt_has;
use crate::graph::amt_idx;
use crate::qty::Celsius;
use crate::qty::Joules;
use crate::qty::Number;
use crate::qty::One;
use crate::qty::Seconds;
use crate::qty::Watts;
use crate::qty::spec_mul;

verus! {

/// A fuel entry of a catalog item.
#[derive(Debug)]
pub struct RawFuel {
    pub category: String,
    pub value: Number<Joules>,
}

/// A catalog item; only its fuel entry matters to the graph.
#[derive(Debug)]
pub struct RawItem {
    pub name: String,
    pub fuel: Option<RawFuel>,
}

/// One difficulty mode of a catalog recipe.
#[derive(Debug)]
pub struct RawRecipeMode {
    pub category: String,
    pub ingredients: Vec<(String, Number<One>)>,
    pub results: Vec<(String, Number<One>)>,
    pub result_count: Option<Number<One>>,
    pub energy_required: Number<One>,
}

/// A catalog recipe with its two difficulty modes.
#[derive(Debug)]
pub struct RawRecipe {
    pub name: String,
    pub normal: RawRecipeMode,
    pub expensive: RawRecipeMode,
}

/// What mining an entity yields.
#[derive(Debug)]
pub struct RawMinable {
    pub mining_time: Number<One>,
    pub results: Vec<(String, Number<One>)>,
    pub required_fluid: Option<(String, Number<One>)>,
}

/// A catalog resource patch.
#[derive(Debug)]
pub struct RawResource {
    pub name: String,
    pub category: String,
    pub minable: RawMinable,
}

/// A simple entity; rocks can be mined by hand.
#[derive(Debug)]
pub struct RawRock {
    pub name: String,
    pub is_rock: bool,
    pub minable: Option<RawMinable>,
}

/// Where a machine draws its energy from.
#[derive(Debug)]
pub struct RawEnergySource {
    pub fuel_category: Option<String>,
    pub energy_type: EnergyType,
    pub effectivity: Option<Number<One>>,
}

/// A mining drill prototype.
#[derive(Debug)]
pub struct RawMiningDrill {
    pub name: String,
    pub resource_categories: Vec<String>,
    pub mining_speed: Number<One>,
    pub energy_source: RawEnergySource,
    pub energy_usage: Number<Watts>,
}

/// A lab prototype.
#[derive(Debug)]
pub struct RawLab {
    pub name: String,
    pub energy_source: RawEnergySource,
    pub energy_usage: Number<Watts>,
    pub researching_speed: Number<One>,
}

/// A fluid prototype.
#[derive(Debug)]
pub struct RawFluid {
    pub name: String,
    pub max_temperature: Option<Number<Celsius>>,
    pub default_temperature: Number<Celsius>,
    pub heat_capacity: Option<Number<Joules>>,
}

/// A generator prototype.
#[derive(Debug)]
pub struct RawGenerator {
    pub name: String,
    pub fluid: String,
    pub maximum_temperature: Number<Celsius>,
    pub fluid_usage_per_tick: Number<One>,
    pub effectivity: Number<One>,
}

/// A boiler prototype.
#[derive(Debug)]
pub struct RawBoiler {
    pub name: String,
    pub energy_source: RawEnergySource,
    pub energy_consumption: Number<Watts>,
    pub fluid_in: String,
    pub fluid_out: String,
}

/// An assembling machine or furnace prototype.
#[derive(Debug)]
pub struct RawAssembler {
    pub name: String,
    pub crafting_categories: Vec<String>,
    pub crafting_speed: Number<One>,
    pub energy_source: RawEnergySource,
    pub energy_usage: Number<Watts>,
}

/// The character's tabled abilities.
#[derive(Debug)]
pub struct RawCharacter {
    pub mining_categories: Vec<String>,
    pub crafting_categories: Vec<String>,
    pub mining_speed: Number<One>,
}

/// A technology's unit cost; a formula-defined count is `None`.
#[derive(Debug)]
pub struct RawTechUnit {
    pub count: Option<Number<One>>,
    pub time: Number<Seconds>,
    pub ingredients: Vec<(String, Number<One>)>,
}

/// A technology prototype.
#[derive(Debug)]
pub struct RawTechnology {
    pub name: String,
    pub prerequisites: Vec<String>,
    pub unit: RawTechUnit,
    pub ignore_tech_cost_multiplier: bool,
}

/// The decoded prototype dump.
#[derive(Debug)]
pub struct Catalog {
    pub rocks: Vec<RawRock>,
    pub recipes: Vec<RawRecipe>,
    pub items: Vec<RawItem>,
    pub resources: Vec<RawResource>,
    pub mining_drills: Vec<RawMiningDrill>,
    pub labs: Vec<RawLab>,
    pub generators: Vec<RawGenerator>,
    pub fluids: Vec<RawFluid>,
    pub boilers: Vec<RawBoiler>,
    pub assemblers: Vec<RawAssembler>,
    pub character: RawCharacter,
    pub technologies: Vec<RawTechnology>,
}

/// A fault of the catalog itself, found while normalizing.
#[derive(Debug)]
pub enum GraphError {
    /// A generator names a fluid the catalog does not define.
    UnknownFluid { name: String },
    /// A generator's working fluid has no heat capacity.
    MissingHeatCapacity { fluid: String },
    /// A rock that cannot be mined.
    RockNotMinable { name: String },
}

/// The mathematical shape of a `GraphError`.
pub enum GraphErrorV {
    UnknownFluid { name: Seq<char> },
    MissingHeatCapacity { fluid: Seq<char> },
    RockNotMinable { name: Seq<char> },
}

impl View for GraphError {
    type V = GraphErrorV;

    open spec fn view(&self) -> GraphErrorV {
        match self {
            GraphError::UnknownFluid { name } => GraphErrorV::UnknownFluid { name: name@ },
            GraphError::MissingHeatCapacity { fluid } => GraphErrorV::MissingHeatCapacity {
                fluid: fluid@,
            },
            GraphError::RockNotMinable { name } => GraphErrorV::RockNotMinable { name: name@ },
        }
    }
}

/// Name-amount pairs as views.
pub open spec fn named_view(s: Seq<(String, Number<One>)>) -> Seq<(Seq<char>, int)> {
    s.map_values(|p: (String, Number<One>)| (p.0@, p.1@))
}

/// Setting an item amount: replace a present entry or append one.
pub open spec fn amt_set(s: Seq<(ItemV, int)>, k: ItemV, v: int) -> Seq<(ItemV, int)> {
    if amt_has(s, k) {
        s.update(amt_idx(s, k), (k, v))
    } else {
        s.push((k, v))
    }
}

/// A ledger of tangible items from name-amount pairs, each amount scaled by
/// `factor`; a repeated name keeps the last amount.
pub open spec fn tangible_ledger(s: Seq<(Seq<char>, int)>, factor: int) -> Seq<(ItemV, int)>
    decreases s.len(),
{
    if s.len() == 0 {
        Seq::empty()
    } else {
        amt_set(
            tangible_ledger(s.drop_last(), factor),
            ItemV::Tangible { name: s.last().0 },
            spec_mul(s.last().1, factor),
        )
    }
}

/// Build a tangible-item ledger from name-amount pairs, scaling by `factor`.
fn tangible_amounts(v: &Vec<(String, Number<One>)>, factor: Number<One>) -> (r: ItemAmounts)
    ensures
        r@ == tangible_ledger(named_view(v@), factor@),
        r.wf(),
{
    let mut r = ItemAmounts::new();
    let n = v.len();
    let mut i: usize = 0;
    proof {
        assert(named_view(v@).take(0) =~= Seq::<(Seq<char>, int)>::empty());
    }
    while i < n
        invariant
            n == v@.len(),
            i <= n,
            r.wf(),
            r@ == tangible_ledger(named_view(v@).take(i as int), factor@),
        decreases n - i,
    {
        let pair = &v[i];
        let item = Item::Tangible { name: pair.0.clone() };
        r.set(item, pair.1.mul(factor));
        proof {
            assert(named_view(v@).take(i as int + 1).drop_last() =~= named_view(v@).take(i as int));
            assert(named_view(v@).take(i as int + 1).last() == named_view(v@)[i as int]);
        }
        i += 1;
    }
    proof {
        assert(named_view(v@).take(n as int) =~= named_view(v@));
    }
    r
}

/// The recipe mined rocks stand for: instantaneous pickaxe work over the
/// rock's mining time, yielding what the rock yields.
pub open spec fn rock_recipe(r: RawRock, m: RawMinable) -> RecipeV {
    RecipeV {
        name: "pickaxe mine "@ + r.name@,
        category: crate::graph::CategoryV::PickaxeMining,
        ingredients: Seq::empty(),
        results: tangible_ledger(named_view(m.results@), crate::qty::spec_whole(1)),
        crafting_time: Some(m.mining_time@),
    }
}

/// Fold the rock entries into the recipe table.
pub open spec fn with_rock_recipes(
    recipes: Seq<(Seq<char>, RecipeV)>,
    rocks: Seq<RawRock>,
) -> Result<Seq<(Seq<char>, RecipeV)>, GraphErrorV>
    decreases rocks.len(),
{
    if rocks.len() == 0 {
        Ok(recipes)
    } else {
        let r = rocks[0];
        if !r.is_rock {
            with_rock_recipes(recipes, rocks.drop_first())
        } else {
            match r.minable {
                None => Err(GraphErrorV::RockNotMinable { name: r.name@ }),
                Some(m) => with_rock_recipes(
                    dict_set(recipes, "pickaxe mine "@ + r.name@, rock_recipe(r, m)),
                    rocks.drop_first(),
                ),
            }
        }
    }
}

/// Add a recipe for hand-mining each rock.
fn add_rock_recipes(recipes: &mut Dict<Recipe>, rocks: &Vec<RawRock>) -> (r: Result<
    (),
    GraphError,
>)
    requires
        old(recipes).wf(),
        forall|j: int| 0 <= j < old(recipes)@.len() ==> crate::graph::wf_recipe_entry(#[trigger] old(recipes)@[j]),
    ensures
        final(recipes).wf(),
        forall|j: int| 0 <= j < final(recipes)@.len() ==> crate::graph::wf_recipe_entry(#[trigger] final(recipes)@[j]),
        match with_rock_recipes(old(recipes)@, rocks@) {
            Ok(d) => r is Ok && final(recipes)@ == d,
            Err(e) => r matches Err(pe) && pe@ == e,
        },
{
    let n = rocks.len();
    let mut i: usize = 0;
    proof {
        assert(rocks@.skip(0) =~= rocks@);
    }
    while i < n
        invariant
            n == rocks@.len(),
            i <= n,
            recipes.wf(),
            forall|j: int| 0 <= j < recipes@.len() ==> crate::graph::wf_recipe_entry(#[trigger] recipes@[j]),
            with_rock_recipes(recipes@, rocks@.skip(i as int)) == with_rock_recipes(
                old(recipes)@,
                rocks@,
            ),
        decreases n - i,
    {
        let rock = &rocks[i];
        proof {
            assert(rocks@.skip(i as int)[0] == rocks@[i as int]);
            assert(rocks@.skip(i as int).drop_first() =~= rocks@.skip(i as int + 1));
        }
        if rock.is_rock {
            match &rock.minable {
                None => {
                    return Err(GraphError::RockNotMinable { name: rock.name.clone() });
                },
                Some(minable) => {
                    let name = String::from_str("pickaxe mine ").concat(rock.name.as_str());
                    let results = tangible_amounts(&minable.results, Number::from_whole(1));
                    let rec = Recipe {
                        name: name.clone(),
                        category: Category::PickaxeMining,
                        ingredients: ItemAmounts::new(),
                        results,
                        crafting_time: Some(minable.mining_time),
                    };
                    proof {
                        assert(rec@ =~= rock_recipe(rocks@[i as int], rocks@[i as int].minable->0));
                        lemma_tangible_ledger_valid(
                            named_view(minable.results@),
                            crate::qty::spec_whole(1),
                        );
                        assert(crate::graph::wf_recipe_entry((name@, rec@)));
                    }
                    let ghost prev = recipes@;
                    recipes.set(name.as_str(), rec);
                    proof {
                        assert forall|j: int|
                            0 <= j < recipes@.len() implies crate::graph::wf_recipe_entry(
                            #[trigger] recipes@[j],
                        ) by {
                            crate::dict::lemma_dict_set_element(prev, name@, rec@, j);
                        }
                    }
                },
            }
        }
        i += 1;
    }
    proof {
        assert(rocks@.skip(n as int).len() == 0);
    }
    Ok(())
}


/// The chosen difficulty mode of a catalog recipe.
pub open spec fn mode_of(r: RawRecipe, mode: crate::graph::RecipeMode) -> RawRecipeMode {
    match mode {
        crate::graph::RecipeMode::Normal => r.normal,
        crate::graph::RecipeMode::Expensive => r.expensive,
    }
}

/// The recipe a catalog recipe stands for under the chosen mode: tangible
/// ingredients and results (results scaled by the result count), taking the
/// recipe's required energy as its crafting time.
pub open spec fn craft_recipe(name: Seq<char>, m: RawRecipeMode) -> RecipeV {
    RecipeV {
        name: name,
        category: crate::graph::CategoryV::Craft(m.category@),
        ingredients: tangible_ledger(named_view(m.ingredients@), crate::qty::spec_whole(1)),
        results: tangible_ledger(
            named_view(m.results@),
            match m.result_count {
                Some(c) => c@,
                None => crate::qty::spec_whole(1),
            },
        ),
        crafting_time: Some(m.energy_required@),
    }
}

/// Fold the catalog recipes into the recipe table.
pub open spec fn with_craft_recipes(
    recipes: Seq<(Seq<char>, RecipeV)>,
    raws: Seq<RawRecipe>,
    mode: crate::graph::RecipeMode,
) -> Seq<(Seq<char>, RecipeV)>
    decreases raws.len(),
{
    if raws.len() == 0 {
        recipes
    } else {
        with_craft_recipes(
            dict_set(recipes, raws[0].name@, craft_recipe(raws[0].name@, mode_of(raws[0], mode))),
            raws.drop_first(),
            mode,
        )
    }
}

/// Add every catalog recipe under the chosen difficulty mode.
fn add_craft_recipes(
    recipes: &mut Dict<Recipe>,
    raws: &Vec<RawRecipe>,
    mode: crate::graph::RecipeMode,
)
    requires
        old(recipes).wf(),
        forall|j: int| 0 <= j < old(recipes)@.len() ==> crate::graph::wf_recipe_entry(#[trigger] old(recipes)@[j]),
    ensures
        final(recipes).wf(),
        forall|j: int| 0 <= j < final(recipes)@.len() ==> crate::graph::wf_recipe_entry(#[trigger] final(recipes)@[j]),
        final(recipes)@ == with_craft_recipes(old(recipes)@, raws@, mode),
{
    let n = raws.len();
    let mut i: usize = 0;
    proof {
        assert(raws@.skip(0) =~= raws@);
    }
    while i < n
        invariant
            n == raws@.len(),
            i <= n,
            recipes.wf(),
            forall|j: int| 0 <= j < recipes@.len() ==> crate::graph::wf_recipe_entry(#[trigger] recipes@[j]),
            with_craft_recipes(recipes@, raws@.skip(i as int), mode) == with_craft_recipes(
                old(recipes)@,
                raws@,
                mode,
            ),
        decreases n - i,
    {
        let raw = &raws[i];
        proof {
            assert(raws@.skip(i as int)[0] == raws@[i as int]);
            assert(raws@.skip(i as int).drop_first() =~= raws@.skip(i as int + 1));
        }
        let m = match mode {
            crate::graph::RecipeMode::Normal => &raw.normal,
            crate::graph::RecipeMode::Expensive => &raw.expensive,
        };
        let factor = match &m.result_count {
            Some(c) => *c,
            None => Number::from_whole(1),
        };
        let rec = Recipe {
            name: raw.name.clone(),
            category: Category::Craft(m.category.clone()),
            ingredients: tangible_amounts(&m.ingredients, Number::from_whole(1)),
            results: tangible_amounts(&m.results, factor),
            crafting_time: Some(m.energy_required),
        };
        proof {
            assert(rec@ =~= craft_recipe(raws@[i as int].name@, mode_of(raws@[i as int], mode)));
            lemma_tangible_ledger_valid(
                named_view(m.ingredients@),
                crate::qty::spec_whole(1),
            );
            lemma_tangible_ledger_valid(named_view(m.results@), factor@);
            assert(crate::graph::wf_recipe_entry((raw.name@, rec@)));
        }
        let ghost prev = recipes@;
        recipes.set(raw.name.as_str(), rec);
        proof {
            assert forall|j: int|
                0 <= j < recipes@.len() implies crate::graph::wf_recipe_entry(
                #[trigger] recipes@[j],
            ) by {
                crate::dict::lemma_dict_set_element(prev, raw.name@, rec@, j);
            }
        }
        i += 1;
    }
    proof {
        assert(raws@.skip(n as int).len() == 0);
    }
}

/// The synthesized name of the recipe burning `item` in `category`.
pub open spec fn burn_recipe_name(item: Seq<char>, category: Seq<char>) -> Seq<char> {
    crate::step::fuel_recipe_name(item, category)
}

/// The recipe a fuel item stands for: burn one of the item, instantly, for
/// its fuel value of burner energy in its fuel category.
pub open spec fn burn_recipe(item: Seq<char>, f: RawFuel) -> RecipeV {
    RecipeV {
        name: burn_recipe_name(item, f.category@),
        category: crate::graph::CategoryV::BurnableFuelEnergy(f.category@),
        ingredients: seq![(ItemV::Tangible { name: item }, crate::qty::spec_whole(1))],
        results: seq![
            (
                ItemV::Energy {
                    fuel_category: Some(f.category@),
                    energy_type: EnergyType::Burner,
                },
                f.value@,
            ),
        ],
        crafting_time: None,
    }
}

/// Fold the fuel items into the recipe table.
pub open spec fn with_fuel_recipes(
    recipes: Seq<(Seq<char>, RecipeV)>,
    items: Seq<RawItem>,
) -> Seq<(Seq<char>, RecipeV)>
    decreases items.len(),
{
    if items.len() == 0 {
        recipes
    } else {
        match items[0].fuel {
            None => with_fuel_recipes(recipes, items.drop_first()),
            Some(f) => with_fuel_recipes(
                dict_set(
                    recipes,
                    burn_recipe_name(items[0].name@, f.category@),
                    burn_recipe(items[0].name@, f),
                ),
                items.drop_first(),
            ),
        }
    }
}

/// Add a burning recipe for every fuel item.
fn add_fuel_recipes(recipes: &mut Dict<Recipe>, items: &Vec<RawItem>)
    requires
        old(recipes).wf(),
        forall|j: int| 0 <= j < old(recipes)@.len() ==> crate::graph::wf_recipe_entry(#[trigger] old(recipes)@[j]),
    ensures
        final(recipes).wf(),
        forall|j: int| 0 <= j < final(recipes)@.len() ==> crate::graph::wf_recipe_entry(#[trigger] final(recipes)@[j]),
        final(recipes)@ == with_fuel_recipes(old(recipes)@, items@),
{
    let n = items.len();
    let mut i: usize = 0;
    proof {
        assert(items@.skip(0) =~= items@);
    }
    while i < n
        invariant
            n == items@.len(),
            i <= n,
            recipes.wf(),
            forall|j: int| 0 <= j < recipes@.len() ==> crate::graph::wf_recipe_entry(#[trigger] recipes@[j]),
            with_fuel_recipes(recipes@, items@.skip(i as int)) == with_fuel_recipes(
                old(recipes)@,
                items@,
            ),
        decreases n - i,
    {
        let item = &items[i];
        proof {
            assert(items@.skip(i as int)[0] == items@[i as int]);
            assert(items@.skip(i as int).drop_first() =~= items@.skip(i as int + 1));
        }
        match &item.fuel {
            None => {},
            Some(f) => {
                let mut name = item.name.clone();
                name = name.concat(" ");
                name = name.concat(f.category.as_str());
                name = name.concat(" burnable fuel energy");
                proof {
                    assert(name@ =~= burn_recipe_name(items@[i as int].name@, f.category@));
                }
                let mut ingredients = ItemAmounts::new();
                ingredients.set(
                    Item::Tangible { name: item.name.clone() },
                    Number::from_whole(1),
                );
                let mut results = ItemAmounts::new();
                results.set(
                    Item::Energy {
                        fuel_category: Some(f.category.clone()),
                        energy_type: EnergyType::Burner,
                    },
                    f.value.convert::<One>(),
                );
                let rec = Recipe {
                    name: name.clone(),
                    category: Category::BurnableFuelEnergy(f.category.clone()),
                    ingredients,
                    results,
                    crafting_time: None,
                };
                proof {
                    assert(rec@ =~= burn_recipe(
                        items@[i as int].name@,
                        items@[i as int].fuel->0,
                    ));
                    assert(crate::graph::wf_recipe_entry((name@, rec@)));
                }
                let ghost prev = recipes@;
                recipes.set(name.as_str(), rec);
                proof {
                    assert forall|j: int|
                        0 <= j < recipes@.len() implies crate::graph::wf_recipe_entry(
                        #[trigger] recipes@[j],
                    ) by {
                        crate::dict::lemma_dict_set_element(prev, name@, rec@, j);
                    }
                }
            },
        }
        i += 1;
    }
    proof {
        assert(items@.skip(n as int).len() == 0);
    }
}

/// The recipe a resource stands for: mine it over its mining time, consuming
/// its required fluid, if any.
pub open spec fn mining_recipe(r: RawResource) -> RecipeV {
    RecipeV {
        name: r.name@ + " mining"@,
        category: crate::graph::CategoryV::Mining(r.category@),
        ingredients: match r.minable.required_fluid {
            None => Seq::empty(),
            Some(f) => seq![(ItemV::Tangible { name: f.0@ }, f.1@)],
        },
        results: tangible_ledger(named_view(r.minable.results@), crate::qty::spec_whole(1)),
        crafting_time: Some(r.minable.mining_time@),
    }
}

/// Fold the resources into the recipe table.
pub open spec fn with_mining_recipes(
    recipes: Seq<(Seq<char>, RecipeV)>,
    resources: Seq<RawResource>,
) -> Seq<(Seq<char>, RecipeV)>
    decreases resources.len(),
{
    if resources.len() == 0 {
        recipes
    } else {
        with_mining_recipes(
            dict_set(recipes, resources[0].name@ + " mining"@, mining_recipe(resources[0])),
            resources.drop_first(),
        )
    }
}

/// Add a mining recipe for every resource.
fn add_mining_recipes(recipes: &mut Dict<Recipe>, resources: &Vec<RawResource>)
    requires
        old(recipes).wf(),
        forall|j: int| 0 <= j < old(recipes)@.len() ==> crate::graph::wf_recipe_entry(#[trigger] old(recipes)@[j]),
    ensures
        final(recipes).wf(),
        forall|j: int| 0 <= j < final(recipes)@.len() ==> crate::graph::wf_recipe_entry(#[trigger] final(recipes)@[j]),
        final(recipes)@ == with_mining_recipes(old(recipes)@, resources@),
{
    let n = resources.len();
    let mut i: usize = 0;
    proof {
        assert(resources@.skip(0) =~= resources@);
    }
    while i < n
        invariant
            n == resources@.len(),
            i <= n,
            recipes.wf(),
            forall|j: int| 0 <= j < recipes@.len() ==> crate::graph::wf_recipe_entry(#[trigger] recipes@[j]),
            with_mining_recipes(recipes@, resources@.skip(i as int)) == with_mining_recipes(
                old(recipes)@,
                resources@,
            ),
        decreases n - i,
    {
        let res = &resources[i];
        proof {
            assert(resources@.skip(i as int)[0] == resources@[i as int]);
            assert(resources@.skip(i as int).drop_first() =~= resources@.skip(i as int + 1));
        }
        let name = res.name.clone().concat(" mining");
        let mut ingredients = ItemAmounts::new();
        match &res.minable.required_fluid {
            None => {},
            Some(f) => {
                ingredients.set(Item::Tangible { name: f.0.clone() }, f.1);
            },
        }
        let rec = Recipe {
            name: name.clone(),
            category: Category::Mining(res.category.clone()),
            ingredients,
            results: tangible_amounts(&res.minable.results, Number::from_whole(1)),
            crafting_time: Some(res.minable.mining_time),
        };
        proof {
            assert(rec@ =~= mining_recipe(resources@[i as int]));
            lemma_tangible_ledger_valid(
                named_view(res.minable.results@),
                crate::qty::spec_whole(1),
            );
            assert(crate::graph::wf_recipe_entry((name@, rec@)));
        }
        let ghost prev = recipes@;
        recipes.set(name.as_str(), rec);
        proof {
            assert forall|j: int|
                0 <= j < recipes@.len() implies crate::graph::wf_recipe_entry(
                #[trigger] recipes@[j],
            ) by {
                crate::dict::lemma_dict_set_element(prev, name@, rec@, j);
            }
        }
        i += 1;
    }
    proof {
        assert(resources@.skip(n as int).len() == 0);
    }
}


/// An entry of `amt_set(s, k, v)` is the new entry or the old entry at the
/// same position.
pub proof fn lemma_amt_set_element(s: Seq<(ItemV, int)>, k: ItemV, v: int, j: int)
    requires
        0 <= j < amt_set(s, k, v).len(),
    ensures
        amt_set(s, k, v)[j] == (k, v) || (0 <= j < s.len() && amt_set(s, k, v)[j] == s[j]),
{
}

/// Every key of a tangible ledger is a tangible (hence valid) item.
pub proof fn lemma_tangible_ledger_valid(s: Seq<(Seq<char>, int)>, f: int)
    ensures
        forall|j: int|
            0 <= j < tangible_ledger(s, f).len() ==> (#[trigger] tangible_ledger(s, f)[j]).0
                is Tangible,
    decreases s.len(),
{
    if s.len() > 0 {
        lemma_tangible_ledger_valid(s.drop_last(), f);
        assert forall|j: int|
            0 <= j < tangible_ledger(s, f).len() implies (#[trigger] tangible_ledger(s, f)[j]).0
            is Tangible by {
            lemma_amt_set_element(
                tangible_ledger(s.drop_last(), f),
                ItemV::Tangible { name: s.last().0 },
                spec_mul(s.last().1, f),
                j,
            );
        }
    }
}

/// The energy ledger a machine's power draw stands for: one energy item of
/// the source's kind, drawn at the usage over the source's effectivity.
pub open spec fn energy_usage_of(src: RawEnergySource, usage: int) -> Seq<(ItemV, int)> {
    seq![
        (
            ItemV::Energy {
                fuel_category: match src.fuel_category {
                    Some(c) => Some(c@),
                    None => None,
                },
                energy_type: src.energy_type,
            },
            crate::qty::spec_div(
                usage,
                match src.effectivity {
                    Some(e) => e@,
                    None => crate::qty::spec_whole(1),
                },
            ),
        ),
    ]
}

/// Build the energy ledger of a machine's power draw.
fn energy_amounts(src: &RawEnergySource, usage: Number<Watts>) -> (r: ItemAmounts)
    ensures
        r@ == energy_usage_of(*src, usage@),
        r.wf(),
{
    let eff = match &src.effectivity {
        Some(e) => *e,
        None => Number::from_whole(1),
    };
    let fuel_category = match &src.fuel_category {
        Some(c) => Some(c.clone()),
        None => None,
    };
    let item = Item::Energy { fuel_category, energy_type: src.energy_type };
    let mut r = ItemAmounts::new();
    r.set(item, usage.convert::<One>().div(eff));
    proof {
        assert(r@ =~= energy_usage_of(*src, usage@));
    }
    r
}

/// A list of category names as mining categories.
pub open spec fn mining_cats(s: Seq<String>) -> Seq<crate::graph::CategoryV> {
    s.map_values(|n: String| crate::graph::CategoryV::Mining(n@))
}

/// A list of category names as crafting categories.
pub open spec fn craft_cats(s: Seq<String>) -> Seq<crate::graph::CategoryV> {
    s.map_values(|n: String| crate::graph::CategoryV::Craft(n@))
}

/// Clone category names into mining categories.
fn mining_categories(v: &Vec<String>) -> (r: Vec<Category>)
    ensures
        r@.map_values(|c: Category| c@) == mining_cats(v@),
{
    let mut out: Vec<Category> = Vec::new();
    let n = v.len();
    let mut i: usize = 0;
    while i < n
        invariant
            n == v.len(),
            i <= n,
            out@.len() == i,
            forall|j: int|
                0 <= j < i ==> (#[trigger] out@[j])@ == crate::graph::CategoryV::Mining(v@[j]@),
        decreases n - i,
    {
        out.push(Category::Mining(v[i].clone()));
        i += 1;
    }
    proof {
        assert(out@.map_values(|c: Category| c@) =~= mining_cats(v@));
    }
    out
}

/// Clone category names into crafting categories.
fn crafting_categories(v: &Vec<String>) -> (r: Vec<Category>)
    ensures
        r@.map_values(|c: Category| c@) == craft_cats(v@),
{
    let mut out: Vec<Category> = Vec::new();
    let n = v.len();
    let mut i: usize = 0;
    while i < n
        invariant
            n == v.len(),
            i <= n,
            out@.len() == i,
            forall|j: int|
                0 <= j < i ==> (#[trigger] out@[j])@ == crate::graph::CategoryV::Craft(v@[j]@),
        decreases n - i,
    {
        out.push(Category::Craft(v[i].clone()));
        i += 1;
    }
    proof {
        assert(out@.map_values(|c: Category| c@) =~= craft_cats(v@));
    }
    out
}

/// The machine a mining drill stands for.
pub open spec fn drill_machine(d: RawMiningDrill) -> MachineV {
    MachineV {
        name: d.name@,
        categories: mining_cats(d.resource_categories@),
        energy_usage: energy_usage_of(d.energy_source, d.energy_usage@),
        crafting_speed: d.mining_speed@,
    }
}

/// Fold the mining drills into the machine table.
pub open spec fn with_drill_machines(
    machines: Seq<(Seq<char>, MachineV)>,
    drills: Seq<RawMiningDrill>,
) -> Seq<(Seq<char>, MachineV)>
    decreases drills.len(),
{
    if drills.len() == 0 {
        machines
    } else {
        with_drill_machines(
            dict_set(machines, drills[0].name@, drill_machine(drills[0])),
            drills.drop_first(),
        )
    }
}

/// Add a machine for every mining drill.
fn add_drill_machines(machines: &mut Dict<Machine>, drills: &Vec<RawMiningDrill>)
    requires
        old(machines).wf(),
        forall|j: int| 0 <= j < old(machines)@.len() ==> (#[trigger] old(machines)@[j]).0 == old(machines)@[j].1.name,
    ensures
        final(machines).wf(),
        forall|j: int| 0 <= j < final(machines)@.len() ==> (#[trigger] final(machines)@[j]).0 == final(machines)@[j].1.name,
        final(machines)@ == with_drill_machines(old(machines)@, drills@),
{
    let n = drills.len();
    let mut i: usize = 0;
    proof {
        assert(drills@.skip(0) =~= drills@);
    }
    while i < n
        invariant
            n == drills@.len(),
            i <= n,
            machines.wf(),
            forall|j: int| 0 <= j < machines@.len() ==> (#[trigger] machines@[j]).0 == machines@[j].1.name,
            with_drill_machines(machines@, drills@.skip(i as int)) == with_drill_machines(
                old(machines)@,
                drills@,
            ),
        decreases n - i,
    {
        let d = &drills[i];
        proof {
            assert(drills@.skip(i as int)[0] == drills@[i as int]);
            assert(drills@.skip(i as int).drop_first() =~= drills@.skip(i as int + 1));
        }
        let m = Machine {
            name: d.name.clone(),
            categories: mining_categories(&d.resource_categories),
            energy_usage: energy_amounts(&d.energy_source, d.energy_usage),
            crafting_speed: d.mining_speed,
        };
        proof {
            assert(m@ =~= drill_machine(drills@[i as int]));
        }
        let ghost prev = machines@;
        machines.set(d.name.as_str(), m);
        proof {
            assert forall|j: int|
                0 <= j < machines@.len() implies (#[trigger] machines@[j]).0 == machines@[j].1.name by {
                crate::dict::lemma_dict_set_element(prev, d.name@, m@, j);
            }
        }
        i += 1;
    }
    proof {
        assert(drills@.skip(n as int).len() == 0);
    }
}

/// The machine a lab stands for.
pub open spec fn lab_machine(l: RawLab) -> MachineV {
    MachineV {
        name: l.name@,
        categories: seq![crate::graph::CategoryV::Research],
        energy_usage: energy_usage_of(l.energy_source, l.energy_usage@),
        crafting_speed: l.researching_speed@,
    }
}

/// Fold the labs into the machine table.
pub open spec fn with_lab_machines(
    machines: Seq<(Seq<char>, MachineV)>,
    labs: Seq<RawLab>,
) -> Seq<(Seq<char>, MachineV)>
    decreases labs.len(),
{
    if labs.len() == 0 {
        machines
    } else {
        with_lab_machines(
            dict_set(machines, labs[0].name@, lab_machine(labs[0])),
            labs.drop_first(),
        )
    }
}

/// Add a machine for every lab.
fn add_lab_machines(machines: &mut Dict<Machine>, labs: &Vec<RawLab>)
    requires
        old(machines).wf(),
        forall|j: int| 0 <= j < old(machines)@.len() ==> (#[trigger] old(machines)@[j]).0 == old(machines)@[j].1.name,
    ensures
        final(machines).wf(),
        forall|j: int| 0 <= j < final(machines)@.len() ==> (#[trigger] final(machines)@[j]).0 == final(machines)@[j].1.name,
        final(machines)@ == with_lab_machines(old(machines)@, labs@),
{
    let n = labs.len();
    let mut i: usize = 0;
    proof {
        assert(labs@.skip(0) =~= labs@);
    }
    while i < n
        invariant
            n == labs@.len(),
            i <= n,
            machines.wf(),
            forall|j: int| 0 <= j < machines@.len() ==> (#[trigger] machines@[j]).0 == machines@[j].1.name,
            with_lab_machines(machines@, labs@.skip(i as int)) == with_lab_machines(
                old(machines)@,
                labs@,
            ),
        decreases n - i,
    {
        let l = &labs[i];
        proof {
            assert(labs@.skip(i as int)[0] == labs@[i as int]);
            assert(labs@.skip(i as int).drop_first() =~= labs@.skip(i as int + 1));
        }
        let mut cats: Vec<Category> = Vec::new();
        cats.push(Category::Research);
        let m = Machine {
            name: l.name.clone(),
            categories: cats,
            energy_usage: energy_amounts(&l.energy_source, l.energy_usage),
            crafting_speed: l.researching_speed,
        };
        proof {
            assert(m@.categories =~= seq![crate::graph::CategoryV::Research]);
            assert(m@ =~= lab_machine(labs@[i as int]));
        }
        let ghost prev = machines@;
        machines.set(l.name.as_str(), m);
        proof {
            assert forall|j: int|
                0 <= j < machines@.len() implies (#[trigger] machines@[j]).0 == machines@[j].1.name by {
                crate::dict::lemma_dict_set_element(prev, l.name@, m@, j);
            }
        }
        i += 1;
    }
    proof {
        assert(labs@.skip(n as int).len() == 0);
    }
}

/// The machine an assembler or furnace stands for.
pub open spec fn assembler_machine(a: RawAssembler) -> MachineV {
    MachineV {
        name: a.name@,
        categories: craft_cats(a.crafting_categories@),
        energy_usage: energy_usage_of(a.energy_source, a.energy_usage@),
        crafting_speed: a.crafting_speed@,
    }
}

/// Fold the assemblers into the machine table.
pub open spec fn with_assembler_machines(
    machines: Seq<(Seq<char>, MachineV)>,
    assemblers: Seq<RawAssembler>,
) -> Seq<(Seq<char>, MachineV)>
    decreases assemblers.len(),
{
    if assemblers.len() == 0 {
        machines
    } else {
        with_assembler_machines(
            dict_set(machines, assemblers[0].name@, assembler_machine(assemblers[0])),
            assemblers.drop_first(),
        )
    }
}

/// Add a machine for every assembler and furnace.
fn add_assembler_machines(machines: &mut Dict<Machine>, assemblers: &Vec<RawAssembler>)
    requires
        old(machines).wf(),
        forall|j: int| 0 <= j < old(machines)@.len() ==> (#[trigger] old(machines)@[j]).0 == old(machines)@[j].1.name,
    ensures
        final(machines).wf(),
        forall|j: int| 0 <= j < final(machines)@.len() ==> (#[trigger] final(machines)@[j]).0 == final(machines)@[j].1.name,
        final(machines)@ == with_assembler_machines(old(machines)@, assemblers@),
{
    let n = assemblers.len();
    let mut i: usize = 0;
    proof {
        assert(assemblers@.skip(0) =~= assemblers@);
    }
    while i < n
        invariant
            n == assemblers@.len(),
            i <= n,
            machines.wf(),
            forall|j: int| 0 <= j < machines@.len() ==> (#[trigger] machines@[j]).0 == machines@[j].1.name,
            with_assembler_machines(machines@, assemblers@.skip(i as int))
                == with_assembler_machines(old(machines)@, assemblers@),
        decreases n - i,
    {
        let a = &assemblers[i];
        proof {
            assert(assemblers@.skip(i as int)[0] == assemblers@[i as int]);
            assert(assemblers@.skip(i as int).drop_first() =~= assemblers@.skip(i as int + 1));
        }
        let m = Machine {
            name: a.name.clone(),
            categories: crafting_categories(&a.crafting_categories),
            energy_usage: energy_amounts(&a.energy_source, a.energy_usage),
            crafting_speed: a.crafting_speed,
        };
        proof {
            assert(m@ =~= assembler_machine(assemblers@[i as int]));
        }
        let ghost prev = machines@;
        machines.set(a.name.as_str(), m);
        proof {
            assert forall|j: int|
                0 <= j < machines@.len() implies (#[trigger] machines@[j]).0 == machines@[j].1.name by {
                crate::dict::lemma_dict_set_element(prev, a.name@, m@, j);
            }
        }
        i += 1;
    }
    proof {
        assert(assemblers@.skip(n as int).len() == 0);
    }
}


/// Whether the catalog defines a fluid called `name`.
pub open spec fn fluid_has(fluids: Seq<RawFluid>, name: Seq<char>) -> bool {
    exists|i: int| 0 <= i < fluids.len() && fluids[i].name@ == name
}

/// The index of the fluid called `name`.
pub open spec fn fluid_idx(fluids: Seq<RawFluid>, name: Seq<char>) -> int {
    choose|i: int| 0 <= i < fluids.len() && fluids[i].name@ == name
}

/// Fluid names are pairwise distinct.
pub open spec fn fluids_unique(fluids: Seq<RawFluid>) -> bool {
    forall|i: int, j: int| 0 <= i < j < fluids.len() ==> fluids[i].name@ != fluids[j].name@
}

/// Look a fluid up by name.
fn find_fluid<'a>(fluids: &'a Vec<RawFluid>, name: &str) -> (r: Option<&'a RawFluid>)
    requires
        fluids_unique(fluids@),
    ensures
        match r {
            Some(f) => fluid_has(fluids@, name@) && *f == fluids@[fluid_idx(fluids@, name@)],
            None => !fluid_has(fluids@, name@),
        },
{
    let n = fluids.len();
    let mut i: usize = 0;
    while i < n
        invariant
            fluids_unique(fluids@),
            n == fluids@.len(),
            i <= n,
            forall|j: int| 0 <= j < i ==> (#[trigger] fluids@[j]).name@ != name@,
        decreases n - i,
    {
        if crate::dict::str_eq(fluids[i].name.as_str(), name) {
            proof {
                assert(fluids@[i as int].name@ == name@);
                assert(fluid_idx(fluids@, name@) == i as int);
            }
            return Some(&fluids[i]);
        }
        i += 1;
    }
    None
}

/// One tick of game time.
pub open spec fn tick_time() -> int {
    crate::qty::spec_div(crate::qty::spec_whole(1), crate::qty::spec_whole(60))
}

/// The electric energy one work cycle of a generator yields: the usable
/// temperature drop times the fluid usage per tick, the fluid's heat
/// capacity, and the generator's effectivity.
pub open spec fn generator_energy(g: RawGenerator, fluid: RawFluid) -> int {
    let top = match fluid.max_temperature {
        Some(t) => if g.maximum_temperature@ <= t@ {
            g.maximum_temperature@
        } else {
            t@
        },
        None => g.maximum_temperature@,
    };
    spec_mul(
        spec_mul(
            spec_mul(crate::qty::spec_sub(top, fluid.default_temperature@), g.fluid_usage_per_tick@),
            match fluid.heat_capacity {
                Some(h) => h@,
                None => 0,
            },
        ),
        g.effectivity@,
    )
}

/// The machine a generator stands for.
pub open spec fn generator_machine(g: RawGenerator) -> MachineV {
    MachineV {
        name: g.name@,
        categories: seq![crate::graph::CategoryV::Generator(g.name@)],
        energy_usage: Seq::empty(),
        crafting_speed: crate::qty::spec_whole(1),
    }
}

/// The recipe a generator's work stands for: one tick of consuming its fluid
/// for electric energy.
pub open spec fn generator_recipe(g: RawGenerator, fluid: RawFluid) -> RecipeV {
    RecipeV {
        name: "generator "@ + g.name@ + " work"@,
        category: crate::graph::CategoryV::Generator(g.name@),
        ingredients: seq![(ItemV::Tangible { name: fluid.name@ }, g.fluid_usage_per_tick@)],
        results: seq![
            (
                ItemV::Energy { fuel_category: None, energy_type: EnergyType::Electric },
                generator_energy(g, fluid),
            ),
        ],
        crafting_time: Some(tick_time()),
    }
}

/// Fold the generators into the machine and recipe tables.
pub open spec fn with_generators(
    recipes: Seq<(Seq<char>, RecipeV)>,
    machines: Seq<(Seq<char>, MachineV)>,
    gens: Seq<RawGenerator>,
    fluids: Seq<RawFluid>,
) -> Result<(Seq<(Seq<char>, RecipeV)>, Seq<(Seq<char>, MachineV)>), GraphErrorV>
    decreases gens.len(),
{
    if gens.len() == 0 {
        Ok((recipes, machines))
    } else {
        let g = gens[0];
        if !fluid_has(fluids, g.fluid@) {
            Err(GraphErrorV::UnknownFluid { name: g.fluid@ })
        } else {
            let fluid = fluids[fluid_idx(fluids, g.fluid@)];
            if fluid.heat_capacity is None {
                Err(GraphErrorV::MissingHeatCapacity { fluid: g.fluid@ })
            } else {
                with_generators(
                    dict_set(recipes, "generator "@ + g.name@ + " work"@, generator_recipe(g, fluid)),
                    dict_set(machines, g.name@, generator_machine(g)),
                    gens.drop_first(),
                    fluids,
                )
            }
        }
    }
}

/// Add a machine and a work recipe for every generator.
fn add_generators(
    recipes: &mut Dict<Recipe>,
    machines: &mut Dict<Machine>,
    gens: &Vec<RawGenerator>,
    fluids: &Vec<RawFluid>,
) -> (r: Result<(), GraphError>)
    requires
        old(recipes).wf(),
        old(machines).wf(),
        forall|j: int| 0 <= j < old(recipes)@.len() ==> crate::graph::wf_recipe_entry(#[trigger] old(recipes)@[j]),
        forall|j: int| 0 <= j < old(machines)@.len() ==> (#[trigger] old(machines)@[j]).0 == old(machines)@[j].1.name,
        fluids_unique(fluids@),
    ensures
        final(recipes).wf(),
        final(machines).wf(),
        forall|j: int| 0 <= j < final(recipes)@.len() ==> crate::graph::wf_recipe_entry(#[trigger] final(recipes)@[j]),
        forall|j: int| 0 <= j < final(machines)@.len() ==> (#[trigger] final(machines)@[j]).0 == final(machines)@[j].1.name,
        match with_generators(old(recipes)@, old(machines)@, gens@, fluids@) {
            Ok(p) => r is Ok && final(recipes)@ == p.0 && final(machines)@ == p.1,
            Err(e) => r matches Err(pe) && pe@ == e,
        },
{
    let n = gens.len();
    let mut i: usize = 0;
    proof {
        assert(gens@.skip(0) =~= gens@);
    }
    while i < n
        invariant
            n == gens@.len(),
            i <= n,
            recipes.wf(),
            machines.wf(),
            forall|j: int| 0 <= j < recipes@.len() ==> crate::graph::wf_recipe_entry(#[trigger] recipes@[j]),
            forall|j: int| 0 <= j < machines@.len() ==> (#[trigger] machines@[j]).0 == machines@[j].1.name,
            fluids_unique(fluids@),
            with_generators(recipes@, machines@, gens@.skip(i as int), fluids@) == with_generators(
                old(recipes)@,
                old(machines)@,
                gens@,
                fluids@,
            ),
        decreases n - i,
    {
        let g = &gens[i];
        proof {
            assert(gens@.skip(i as int)[0] == gens@[i as int]);
            assert(gens@.skip(i as int).drop_first() =~= gens@.skip(i as int + 1));
        }
        let fluid = match find_fluid(fluids, g.fluid.as_str()) {
            None => {
                return Err(GraphError::UnknownFluid { name: g.fluid.clone() });
            },
            Some(f) => f,
        };
        let heat = match &fluid.heat_capacity {
            None => {
                return Err(GraphError::MissingHeatCapacity { fluid: g.fluid.clone() });
            },
            Some(h) => *h,
        };
        let mut cats: Vec<Category> = Vec::new();
        cats.push(Category::Generator(g.name.clone()));
        let m = Machine {
            name: g.name.clone(),
            categories: cats,
            energy_usage: ItemAmounts::new(),
            crafting_speed: Number::from_whole(1),
        };
        proof {
            assert(m@.categories =~= seq![
                crate::graph::CategoryV::Generator(gens@[i as int].name@),
            ]);
            assert(m@ =~= generator_machine(gens@[i as int]));
        }
        let mut rec_name = String::from_str("generator ");
        rec_name = rec_name.concat(g.name.as_str());
        rec_name = rec_name.concat(" work");
        proof {
            assert(rec_name@ =~= "generator "@ + gens@[i as int].name@ + " work"@);
        }
        let top = match &fluid.max_temperature {
            Some(t) => {
                if g.maximum_temperature <= *t {
                    g.maximum_temperature
                } else {
                    *t
                }
            },
            None => g.maximum_temperature,
        };
        let energy = top.sub(fluid.default_temperature).convert::<One>().mul(
            g.fluid_usage_per_tick,
        ).mul(heat.convert::<One>()).mul(g.effectivity);
        let mut ingredients = ItemAmounts::new();
        ingredients.set(Item::Tangible { name: fluid.name.clone() }, g.fluid_usage_per_tick);
        let mut results = ItemAmounts::new();
        results.set(
            Item::Energy { fuel_category: None, energy_type: EnergyType::Electric },
            energy,
        );
        let tick = Number::from_whole(1).div(Number::from_whole(60));
        let rec = Recipe {
            name: rec_name.clone(),
            category: Category::Generator(g.name.clone()),
            ingredients,
            results,
            crafting_time: Some(tick),
        };
        proof {
            let fv = fluids@[fluid_idx(fluids@, gens@[i as int].fluid@)];
            assert(energy@ == generator_energy(gens@[i as int], fv));
            assert(rec@ =~= generator_recipe(gens@[i as int], fv));
        }
        proof {
            assert(crate::graph::wf_recipe_entry((rec_name@, rec@)));
        }
        let ghost prevm = machines@;
        machines.set(g.name.as_str(), m);
        let ghost prevr = recipes@;
        recipes.set(rec_name.as_str(), rec);
        proof {
            assert forall|j: int|
                0 <= j < machines@.len() implies (#[trigger] machines@[j]).0 == machines@[j].1.name by {
                crate::dict::lemma_dict_set_element(prevm, g.name@, m@, j);
            }
            assert forall|j: int|
                0 <= j < recipes@.len() implies crate::graph::wf_recipe_entry(
                #[trigger] recipes@[j],
            ) by {
                crate::dict::lemma_dict_set_element(prevr, rec_name@, rec@, j);
            }
        }
        i += 1;
    }
    proof {
        assert(gens@.skip(n as int).len() == 0);
    }
    Ok(())
}

/// The machine a boiler stands for.
pub open spec fn boiler_machine(b: RawBoiler) -> MachineV {
    MachineV {
        name: b.name@,
        categories: seq![crate::graph::CategoryV::Boiler(b.name@)],
        energy_usage: energy_usage_of(b.energy_source, b.energy_consumption@),
        crafting_speed: crate::qty::spec_whole(1),
    }
}

/// The recipe a boiler's work stands for: one tick converting one unit of
/// its input fluid into one unit of its output fluid.
pub open spec fn boiler_recipe(b: RawBoiler) -> RecipeV {
    RecipeV {
        name: "boiling in "@ + b.name@,
        category: crate::graph::CategoryV::Boiler(b.name@),
        ingredients: seq![(ItemV::Tangible { name: b.fluid_in@ }, crate::qty::spec_whole(1))],
        results: seq![(ItemV::Tangible { name: b.fluid_out@ }, crate::qty::spec_whole(1))],
        crafting_time: Some(tick_time()),
    }
}

/// Fold the boilers into the machine and recipe tables.
pub open spec fn with_boilers(
    recipes: Seq<(Seq<char>, RecipeV)>,
    machines: Seq<(Seq<char>, MachineV)>,
    boilers: Seq<RawBoiler>,
) -> (Seq<(Seq<char>, RecipeV)>, Seq<(Seq<char>, MachineV)>)
    decreases boilers.len(),
{
    if boilers.len() == 0 {
        (recipes, machines)
    } else {
        with_boilers(
            dict_set(recipes, "boiling in "@ + boilers[0].name@, boiler_recipe(boilers[0])),
            dict_set(machines, boilers[0].name@, boiler_machine(boilers[0])),
            boilers.drop_first(),
        )
    }
}

/// Add a machine and a boiling recipe for every boiler.
fn add_boilers(recipes: &mut Dict<Recipe>, machines: &mut Dict<Machine>, boilers: &Vec<RawBoiler>)
    requires
        old(recipes).wf(),
        old(machines).wf(),
        forall|j: int| 0 <= j < old(recipes)@.len() ==> crate::graph::wf_recipe_entry(#[trigger] old(recipes)@[j]),
        forall|j: int| 0 <= j < old(machines)@.len() ==> (#[trigger] old(machines)@[j]).0 == old(machines)@[j].1.name,
    ensures
        final(recipes).wf(),
        final(machines).wf(),
        forall|j: int| 0 <= j < final(recipes)@.len() ==> crate::graph::wf_recipe_entry(#[trigger] final(recipes)@[j]),
        forall|j: int| 0 <= j < final(machines)@.len() ==> (#[trigger] final(machines)@[j]).0 == final(machines)@[j].1.name,
        (final(recipes)@, final(machines)@) == with_boilers(
            old(recipes)@,
            old(machines)@,
            boilers@,
        ),
{
    let n = boilers.len();
    let mut i: usize = 0;
    proof {
        assert(boilers@.skip(0) =~= boilers@);
    }
    while i < n
        invariant
            n == boilers@.len(),
            i <= n,
            recipes.wf(),
            machines.wf(),
            forall|j: int| 0 <= j < recipes@.len() ==> crate::graph::wf_recipe_entry(#[trigger] recipes@[j]),
            forall|j: int| 0 <= j < machines@.len() ==> (#[trigger] machines@[j]).0 == machines@[j].1.name,
            with_boilers(recipes@, machines@, boilers@.skip(i as int)) == with_boilers(
                old(recipes)@,
                old(machines)@,
                boilers@,
            ),
        decreases n - i,
    {
        let b = &boilers[i];
        proof {
            assert(boilers@.skip(i as int)[0] == boilers@[i as int]);
            assert(boilers@.skip(i as int).drop_first() =~= boilers@.skip(i as int + 1));
        }
        let mut cats: Vec<Category> = Vec::new();
        cats.push(Category::Boiler(b.name.clone()));
        let m = Machine {
            name: b.name.clone(),
            categories: cats,
            energy_usage: energy_amounts(&b.energy_source, b.energy_consumption),
            crafting_speed: Number::from_whole(1),
        };
        proof {
            assert(m@.categories =~= seq![crate::graph::CategoryV::Boiler(boilers@[i as int].name@)]);
            assert(m@ =~= boiler_machine(boilers@[i as int]));
        }
        let rec_name = String::from_str("boiling in ").concat(b.name.as_str());
        let mut ingredients = ItemAmounts::new();
        ingredients.set(Item::Tangible { name: b.fluid_in.clone() }, Number::from_whole(1));
        let mut results = ItemAmounts::new();
        results.set(Item::Tangible { name: b.fluid_out.clone() }, Number::from_whole(1));
        let tick = Number::from_whole(1).div(Number::from_whole(60));
        let rec = Recipe {
            name: rec_name.clone(),
            category: Category::Boiler(b.name.clone()),
            ingredients,
            results,
            crafting_time: Some(tick),
        };
        proof {
            assert(rec@ =~= boiler_recipe(boilers@[i as int]));
        }
        proof {
            assert(crate::graph::wf_recipe_entry((rec_name@, rec@)));
        }
        let ghost prevm = machines@;
        machines.set(b.name.as_str(), m);
        let ghost prevr = recipes@;
        recipes.set(rec_name.as_str(), rec);
        proof {
            assert forall|j: int|
                0 <= j < machines@.len() implies (#[trigger] machines@[j]).0 == machines@[j].1.name by {
                crate::dict::lemma_dict_set_element(prevm, b.name@, m@, j);
            }
            assert forall|j: int|
                0 <= j < recipes@.len() implies crate::graph::wf_recipe_entry(
                #[trigger] recipes@[j],
            ) by {
                crate::dict::lemma_dict_set_element(prevr, rec_name@, rec@, j);
            }
        }
        i += 1;
    }
    proof {
        assert(boilers@.skip(n as int).len() == 0);
    }
}


/// The pseudo-machine that mines by hand: the character's mining categories
/// plus rock pickaxing, at the character's mining speed.
pub open spec fn char_mining_machine(c: RawCharacter) -> MachineV {
    MachineV {
        name: "character mining"@,
        categories: mining_cats(c.mining_categories@).push(
            crate::graph::CategoryV::PickaxeMining,
        ),
        energy_usage: Seq::empty(),
        crafting_speed: c.mining_speed@,
    }
}

/// The pseudo-machine that crafts by hand, at unit speed.
pub open spec fn char_crafting_machine(c: RawCharacter) -> MachineV {
    MachineV {
        name: "character crafting"@,
        categories: craft_cats(c.crafting_categories@),
        energy_usage: Seq::empty(),
        crafting_speed: crate::qty::spec_whole(1),
    }
}

/// The pseudo-machine that yields free items.
pub open spec fn free_machine() -> MachineV {
    MachineV {
        name: "free"@,
        categories: seq![crate::graph::CategoryV::Free],
        energy_usage: Seq::empty(),
        crafting_speed: crate::qty::spec_whole(1),
    }
}

/// The free recipe yielding one unit of water, instantly.
pub open spec fn water_recipe() -> RecipeV {
    RecipeV {
        name: "water"@,
        category: crate::graph::CategoryV::Free,
        ingredients: Seq::empty(),
        results: seq![(ItemV::Tangible { name: "water"@ }, crate::qty::spec_whole(1))],
        crafting_time: None,
    }
}

/// The synthesized name of a technology's research recipe.
pub open spec fn research_recipe_name(name: Seq<char>) -> Seq<char> {
    "research "@ + name
}

/// A list of names as views.
pub open spec fn prereq_view(s: Seq<String>) -> Seq<Seq<char>> {
    s.map_values(|n: String| n@)
}

/// The research record a technology stands for.
pub open spec fn tech_research(t: RawTechnology) -> crate::graph::ResearchV {
    crate::graph::ResearchV {
        name: t.name@,
        dependencies: prereq_view(t.prerequisites@),
        recipe: research_recipe_name(t.name@),
    }
}

/// A technology's scaled unit count: the science multiplier applies unless
/// the technology opts out.
pub open spec fn tech_scaled_count(t: RawTechnology, mult: int) -> int {
    let count = match t.unit.count {
        Some(c) => c@,
        None => 0,
    };
    if t.ignore_tech_cost_multiplier {
        count
    } else {
        spec_mul(count, mult)
    }
}

/// The recipe researching a technology stands for: its unit ingredients at
/// the scaled count, no results, over the unit time at the scaled count.
pub open spec fn tech_recipe(t: RawTechnology, mult: int) -> RecipeV {
    RecipeV {
        name: research_recipe_name(t.name@),
        category: crate::graph::CategoryV::Research,
        ingredients: tangible_ledger(
            named_view(t.unit.ingredients@),
            tech_scaled_count(t, mult),
        ),
        results: Seq::empty(),
        crafting_time: Some(spec_mul(t.unit.time@, tech_scaled_count(t, mult))),
    }
}

/// Fold the technologies into the recipe and research tables. A technology
/// gets its research record and research recipe if and only if its unit
/// count is constant: one whose cost is formula-defined is omitted from the
/// graph entirely.
pub open spec fn with_technologies(
    recipes: Seq<(Seq<char>, RecipeV)>,
    researches: Seq<(Seq<char>, crate::graph::ResearchV)>,
    techs: Seq<RawTechnology>,
    mult: int,
) -> (Seq<(Seq<char>, RecipeV)>, Seq<(Seq<char>, crate::graph::ResearchV)>)
    decreases techs.len(),
{
    if techs.len() == 0 {
        (recipes, researches)
    } else {
        let t = techs[0];
        match t.unit.count {
            None => with_technologies(recipes, researches, techs.drop_first(), mult),
            Some(_) => with_technologies(
                dict_set(recipes, research_recipe_name(t.name@), tech_recipe(t, mult)),
                dict_set(researches, t.name@, tech_research(t)),
                techs.drop_first(),
                mult,
            ),
        }
    }
}

/// A formula-cost technology contributes nothing: folding it in first leaves
/// both tables exactly as folding the remaining technologies alone does.
pub proof fn lemma_formula_tech_omitted(
    recipes: Seq<(Seq<char>, RecipeV)>,
    researches: Seq<(Seq<char>, crate::graph::ResearchV)>,
    t: RawTechnology,
    techs: Seq<RawTechnology>,
    mult: int,
)
    requires
        t.unit.count is None,
    ensures
        with_technologies(recipes, researches, seq![t] + techs, mult) == with_technologies(
            recipes,
            researches,
            techs,
            mult,
        ),
{
    assert((seq![t] + techs)[0] == t);
    assert((seq![t] + techs).drop_first() =~= techs);
}

/// Add a research record and a research recipe for every technology with a
/// constant unit count; formula-cost technologies are left out of the graph.
fn add_technologies(
    recipes: &mut Dict<Recipe>,
    researches: &mut Dict<crate::graph::Research>,
    techs: &Vec<RawTechnology>,
    mult: Number<One>,
)
    requires
        old(recipes).wf(),
        old(researches).wf(),
        forall|j: int|
            0 <= j < old(recipes)@.len() ==> crate::graph::wf_recipe_entry(
                #[trigger] old(recipes)@[j],
            ),
        forall|j: int|
            0 <= j < old(researches)@.len() ==> (#[trigger] old(researches)@[j]).0
                == old(researches)@[j].1.name,
    ensures
        final(recipes).wf(),
        final(researches).wf(),
        forall|j: int|
            0 <= j < final(recipes)@.len() ==> crate::graph::wf_recipe_entry(
                #[trigger] final(recipes)@[j],
            ),
        forall|j: int|
            0 <= j < final(researches)@.len() ==> (#[trigger] final(researches)@[j]).0
                == final(researches)@[j].1.name,
        (final(recipes)@, final(researches)@) == with_technologies(
            old(recipes)@,
            old(researches)@,
            techs@,
            mult@,
        ),
{
    let n = techs.len();
    let mut i: usize = 0;
    proof {
        assert(techs@.skip(0) =~= techs@);
    }
    while i < n
        invariant
            n == techs@.len(),
            i <= n,
            recipes.wf(),
            researches.wf(),
            forall|j: int|
                0 <= j < recipes@.len() ==> crate::graph::wf_recipe_entry(#[trigger] recipes@[j]),
            forall|j: int|
                0 <= j < researches@.len() ==> (#[trigger] researches@[j]).0
                    == researches@[j].1.name,
            with_technologies(recipes@, researches@, techs@.skip(i as int), mult@)
                == with_technologies(old(recipes)@, old(researches)@, techs@, mult@),
        decreases n - i,
    {
        let t = &techs[i];
        proof {
            assert(techs@.skip(i as int)[0] == techs@[i as int]);
            assert(techs@.skip(i as int).drop_first() =~= techs@.skip(i as int + 1));
        }
        match &t.unit.count {
            None => {},
            Some(count) => {
                let rec_name = String::from_str("research ").concat(t.name.as_str());
                let rsch = crate::graph::Research {
                    name: t.name.clone(),
                    dependencies: crate::graph::clone_names(&t.prerequisites),
                    recipe: rec_name.clone(),
                };
                proof {
                    assert(rsch@.dependencies =~= prereq_view(techs@[i as int].prerequisites@));
                    assert(rsch@ =~= tech_research(techs@[i as int]));
                }
                let ghost prevt = researches@;
                researches.set(t.name.as_str(), rsch);
                proof {
                    assert forall|j: int|
                        0 <= j < researches@.len() implies (#[trigger] researches@[j]).0
                        == researches@[j].1.name by {
                        crate::dict::lemma_dict_set_element(
                            prevt,
                            t.name@,
                            tech_research(techs@[i as int]),
                            j,
                        );
                    }
                }
                let scaled = if t.ignore_tech_cost_multiplier {
                    *count
                } else {
                    count.mul(mult)
                };
                let rec = Recipe {
                    name: rec_name.clone(),
                    category: Category::Research,
                    ingredients: tangible_amounts(&t.unit.ingredients, scaled),
                    results: ItemAmounts::new(),
                    crafting_time: Some(t.unit.time.convert::<One>().mul(scaled)),
                };
                proof {
                    assert(scaled@ == tech_scaled_count(techs@[i as int], mult@));
                    assert(rec@ =~= tech_recipe(techs@[i as int], mult@));
                    lemma_tangible_ledger_valid(
                        named_view(t.unit.ingredients@),
                        tech_scaled_count(techs@[i as int], mult@),
                    );
                    assert(crate::graph::wf_recipe_entry((rec_name@, rec@)));
                }
                let ghost prevr = recipes@;
                recipes.set(rec_name.as_str(), rec);
                proof {
                    assert forall|j: int|
                        0 <= j < recipes@.len() implies crate::graph::wf_recipe_entry(
                        #[trigger] recipes@[j],
                    ) by {
                        crate::dict::lemma_dict_set_element(prevr, rec_name@, rec@, j);
                    }
                }
            },
        }
        i += 1;
    }
    proof {
        assert(techs@.skip(n as int).len() == 0);
    }
}

/// The normalized graph a catalog stands for, under the chosen recipe mode
/// and science multiplier.
pub open spec fn build_model(c: Catalog, mode: crate::graph::RecipeMode, mult: Number<One>)
    -> Result<crate::graph::GraphV, GraphErrorV> {
    match with_rock_recipes(Seq::empty(), c.rocks@) {
        Err(e) => Err(e),
        Ok(r1) => {
            let r2 = with_craft_recipes(r1, c.recipes@, mode);
            let r3 = with_fuel_recipes(r2, c.items@);
            let r4 = with_mining_recipes(r3, c.resources@);
            let m1 = with_drill_machines(Seq::empty(), c.mining_drills@);
            let m2 = with_lab_machines(m1, c.labs@);
            match with_generators(r4, m2, c.generators@, c.fluids@) {
                Err(e) => Err(e),
                Ok(p) => {
                    let rm = with_boilers(p.0, p.1, c.boilers@);
                    let m5 = with_assembler_machines(rm.1, c.assemblers@);
                    let m6 = dict_set(m5, "character mining"@, char_mining_machine(c.character));
                    let m7 = dict_set(
                        m6,
                        "character crafting"@,
                        char_crafting_machine(c.character),
                    );
                    let rt = with_technologies(rm.0, Seq::empty(), c.technologies@, mult@);
                    let m8 = dict_set(m7, "free"@, free_machine());
                    let r8 = dict_set(rt.0, "water"@, water_recipe());
                    Ok(crate::graph::GraphV { recipes: r8, machines: m8, researches: rt.1 })
                },
            }
        },
    }
}

/// Normalize a catalog into the graph.
pub fn build_graph(
    catalog: &Catalog,
    mode: crate::graph::RecipeMode,
    science_multiplier: Number<One>,
) -> (r: Result<crate::graph::Graph, GraphError>)
    requires
        fluids_unique(catalog.fluids@),
    ensures
        match build_model(*catalog, mode, science_multiplier) {
            Ok(g) => r matches Ok(gr) && gr@ == g && crate::graph::wf_graph(g) && dict_has(
                g.machines,
                "character mining"@,
            ) && dict_has(g.machines, "character crafting"@) && dict_has(g.machines, "free"@),
            Err(e) => r matches Err(pe) && pe@ == e,
        },
{
    let mut recipes: Dict<Recipe> = Dict::new();
    let mut machines: Dict<Machine> = Dict::new();
    let mut researches: Dict<crate::graph::Research> = Dict::new();
    match add_rock_recipes(&mut recipes, &catalog.rocks) {
        Ok(()) => {},
        Err(e) => {
            return Err(e);
        },
    }
    add_craft_recipes(&mut recipes, &catalog.recipes, mode);
    add_fuel_recipes(&mut recipes, &catalog.items);
    add_mining_recipes(&mut recipes, &catalog.resources);
    add_drill_machines(&mut machines, &catalog.mining_drills);
    add_lab_machines(&mut machines, &catalog.labs);
    match add_generators(&mut recipes, &mut machines, &catalog.generators, &catalog.fluids) {
        Ok(()) => {},
        Err(e) => {
            return Err(e);
        },
    }
    add_boilers(&mut recipes, &mut machines, &catalog.boilers);
    add_assembler_machines(&mut machines, &catalog.assemblers);
    // The character's two pseudo-machines.
    let mut mining_cats_vec = mining_categories(&catalog.character.mining_categories);
    mining_cats_vec.push(Category::PickaxeMining);
    let char_mining = Machine {
        name: String::from_str("character mining"),
        categories: mining_cats_vec,
        energy_usage: ItemAmounts::new(),
        crafting_speed: catalog.character.mining_speed,
    };
    proof {
        assert(char_mining@.categories =~= char_mining_machine(catalog.character).categories);
        assert(char_mining@ =~= char_mining_machine(catalog.character));
    }
    let ghost prevm1 = machines@;
    machines.set("character mining", char_mining);
    proof {
        assert forall|j: int|
            0 <= j < machines@.len() implies (#[trigger] machines@[j]).0
            == machines@[j].1.name by {
            crate::dict::lemma_dict_set_element(
                prevm1,
                "character mining"@,
                char_mining_machine(catalog.character),
                j,
            );
        }
    }
    let char_crafting = Machine {
        name: String::from_str("character crafting"),
        categories: crafting_categories(&catalog.character.crafting_categories),
        energy_usage: ItemAmounts::new(),
        crafting_speed: Number::from_whole(1),
    };
    proof {
        assert(char_crafting@ =~= char_crafting_machine(catalog.character));
    }
    let ghost prevm2 = machines@;
    machines.set("character crafting", char_crafting);
    proof {
        assert forall|j: int|
            0 <= j < machines@.len() implies (#[trigger] machines@[j]).0
            == machines@[j].1.name by {
            crate::dict::lemma_dict_set_element(
                prevm2,
                "character crafting"@,
                char_crafting_machine(catalog.character),
                j,
            );
        }
    }
    add_technologies(&mut recipes, &mut researches, &catalog.technologies, science_multiplier);
    // Free stuff: the free machine and its free items.
    let mut free_cats: Vec<Category> = Vec::new();
    free_cats.push(Category::Free);
    let free = Machine {
        name: String::from_str("free"),
        categories: free_cats,
        energy_usage: ItemAmounts::new(),
        crafting_speed: Number::from_whole(1),
    };
    proof {
        assert(free@.categories =~= free_machine().categories);
        assert(free@ =~= free_machine());
    }
    let ghost prevm3 = machines@;
    machines.set("free", free);
    proof {
        assert forall|j: int|
            0 <= j < machines@.len() implies (#[trigger] machines@[j]).0
            == machines@[j].1.name by {
            crate::dict::lemma_dict_set_element(prevm3, "free"@, free_machine(), j);
        }
    }
    let mut water_results = ItemAmounts::new();
    water_results.set(
        Item::Tangible { name: String::from_str("water") },
        Number::from_whole(1),
    );
    let water = Recipe {
        name: String::from_str("water"),
        category: Category::Free,
        ingredients: ItemAmounts::new(),
        results: water_results,
        crafting_time: None,
    };
    proof {
        assert(water@ =~= water_recipe());
        assert(crate::graph::wf_recipe_entry(("water"@, water@)));
    }
    let ghost prevr = recipes@;
    recipes.set("water", water);
    proof {
        assert forall|j: int|
            0 <= j < recipes@.len() implies crate::graph::wf_recipe_entry(
            #[trigger] recipes@[j],
        ) by {
            crate::dict::lemma_dict_set_element(prevr, "water"@, water_recipe(), j);
        }
    }
    let g = crate::graph::Graph { recipes, machines, researches };
    proof {
        reveal_strlit("character mining");
        reveal_strlit("character crafting");
        reveal_strlit("free");
        assert("character mining"@.len() == 16);
        assert("character crafting"@.len() == 18);
        assert("free"@.len() == 4);
        assert(crate::graph::wf_graph(g@));
        crate::dict::lemma_dict_set_has(prevm1, "character mining"@, char_mining_machine(
            catalog.character,
        ));
        crate::dict::lemma_dict_set_keeps(
            prevm2,
            "character crafting"@,
            char_crafting_machine(catalog.character),
            "character mining"@,
        );
        crate::dict::lemma_dict_set_has(
            prevm2,
            "character crafting"@,
            char_crafting_machine(catalog.character),
        );
        crate::dict::lemma_dict_set_keeps(prevm3, "free"@, free_machine(), "character mining"@);
        crate::dict::lemma_dict_set_keeps(prevm3, "free"@, free_machine(), "character crafting"@);
        crate::dict::lemma_dict_set_has(prevm3, "free"@, free_machine());
        assert(dict_has(g@.machines, "character mining"@));
        assert(dict_has(g@.machines, "character crafting"@));
        assert(dict_has(g@.machines, "free"@));
    }
    Ok(g)
}

impl crate::world::World {
    /// A fresh world over the normalized form of a catalog.
    pub fn new(
        catalog: &Catalog,
        mode: crate::graph::RecipeMode,
        science_multiplier: Number<One>,
    ) -> (r: Result<crate::world::World, GraphError>)
        requires
            fluids_unique(catalog.fluids@),
        ensures
            match build_model(*catalog, mode, science_multiplier) {
                Ok(g) => r matches Ok(w) && w.wf() && w@.graph == g && w@.no_thinking && w@.time
                    == 0 && w@.machines =~= seq![
                    ("character mining"@, crate::qty::spec_whole(1)),
                    ("character crafting"@, crate::qty::spec_whole(1)),
                    ("free"@, crate::qty::spec_whole(1)),
                ] && w@.researches =~= Seq::<Seq<char>>::empty() && w@.preferred_fuel =~= Seq::<
                    (Seq<char>, crate::graph::ItemV),
                >::empty() && w@.total_crafts =~= Seq::<(Seq<char>, int)>::empty()
                    && w@.total_machine_time == 0,
                Err(e) => r matches Err(pe) && pe@ == e,
            },
    {
        match build_graph(catalog, mode, science_multiplier) {
            Ok(g) => Ok(crate::world::World::from_graph(g)),
            Err(e) => Err(e),
        }
    }
}

} // verus!
