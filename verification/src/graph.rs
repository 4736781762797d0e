//! The normalized recipe/machine/research graph and its ledger items.
//!
//! Every production activity of the game becomes a `Recipe`, every executor a
//! `Machine`; recipes and machines are matched through a `Category` key.
//! Energy is modeled as a synthetic ledger `Item` that machines consume and
//! that fuel-burning or generator recipes produce.

use vstd::prelude::*;
use vstd::string::StrSliceExecFns;
use vstd::string::StringExecFns;

use crate::dict::Dict;
use crate::dict::ViewClone;
use crate::dict::dict_keys_unique;
use crate::dict::str_eq;
use crate::qty::Number;
use crate::qty::One;
use crate::qty::spec_add;

verus! {

/// The difficulty mode a catalog recipe is normalized under.
#[derive(Clone, Copy, Debug, PartialEq, Eq, Structural)]
pub enum RecipeMode {
    Normal,
    Expensive,
}

/// The kind of energy a machine draws or a recipe produces.
#[derive(Clone, Copy, Debug, PartialEq, Eq, Structural)]
pub enum EnergyType {
    Burner,
    Electric,
    Heat,
}

/// The name of the pseudo-machine that mines by hand.
pub const CHARACTER_MINING: &'static str = "character mining";

/// The name of the pseudo-machine that crafts by hand.
pub const CHARACTER_CRAFTING: &'static str = "character crafting";

/// The name of the pseudo-machine that yields free items.
pub const FREE_STUFF: &'static str = "free";

/// A ledger key: a real game item or fluid, or a synthetic energy entry.
#[derive(Debug)]
pub enum Item {
    Tangible { name: String },
    Energy { fuel_category: Option<String>, energy_type: EnergyType },
}

/// The mathematical shape of an `Item`.
pub enum ItemV {
    Tangible { name: Seq<char> },
    Energy { fuel_category: Option<Seq<char>>, energy_type: EnergyType },
}

impl View for Item {
    type V = ItemV;

    open spec fn view(&self) -> ItemV {
        match self {
            Item::Tangible { name } => ItemV::Tangible { name: name@ },
            Item::Energy { fuel_category, energy_type } => ItemV::Energy {
                fuel_category: match fuel_category {
                    Some(c) => Some(c@),
                    None => None,
                },
                energy_type: *energy_type,
            },
        }
    }
}

impl Clone for Item {
    fn clone(&self) -> (r: Self)
        ensures
            r@ == self@,
    {
        match self {
            Item::Tangible { name } => Item::Tangible { name: name.clone() },
            Item::Energy { fuel_category, energy_type } => Item::Energy {
                fuel_category: match fuel_category {
                    Some(c) => Some(c.clone()),
                    None => None,
                },
                energy_type: *energy_type,
            },
        }
    }
}

/// A valid ledger item: a burner energy entry always names a fuel category.
pub open spec fn valid_item(i: ItemV) -> bool {
    match i {
        ItemV::Tangible { .. } => true,
        ItemV::Energy { fuel_category, energy_type } => energy_type == EnergyType::Burner
            ==> fuel_category is Some,
    }
}

impl Item {
    /// The tangible item called `name`.
    pub fn tangible(name: &str) -> (r: Item)
        ensures
            r@ == (ItemV::Tangible { name: name@ }),
    {
        Item::Tangible { name: String::from_str(name) }
    }

    /// The name of a tangible item; energy entries have none.
    pub fn name(&self) -> (r: &String)
        requires
            self@ is Tangible,
        ensures
            self@ matches ItemV::Tangible { name } && r@ == name,
    {
        match self {
            Item::Tangible { name } => name,
            Item::Energy { .. } => unreached(),
        }
    }

    /// Whether this is the tangible item called `test_name`.
    pub fn is(&self, test_name: &str) -> (r: bool)
        ensures
            r == (self@ matches ItemV::Tangible { name } && name == test_name@),
    {
        match self {
            Item::Tangible { name } => str_eq(name.as_str(), test_name),
            Item::Energy { .. } => false,
        }
    }
}

/// Whether two items are the same ledger key.
pub fn item_eq(a: &Item, b: &Item) -> (r: bool)
    ensures
        r == (a@ == b@),
{
    match (a, b) {
        (Item::Tangible { name: n1 }, Item::Tangible { name: n2 }) => str_eq(
            n1.as_str(),
            n2.as_str(),
        ),
        (
            Item::Energy { fuel_category: f1, energy_type: t1 },
            Item::Energy { fuel_category: f2, energy_type: t2 },
        ) => {
            let fuels_match = match (f1, f2) {
                (Some(c1), Some(c2)) => str_eq(c1.as_str(), c2.as_str()),
                (None, None) => true,
                _ => false,
            };
            fuels_match && *t1 == *t2
        },
        _ => false,
    }
}

/// The key that matches recipes with the machines able to run them.
#[derive(Debug)]
pub enum Category {
    BurnableFuelEnergy(String),
    PickaxeMining,
    Mining(String),
    Craft(String),
    Research,
    Generator(String),
    Boiler(String),
    Free,
}

/// The mathematical shape of a `Category`.
pub enum CategoryV {
    BurnableFuelEnergy(Seq<char>),
    PickaxeMining,
    Mining(Seq<char>),
    Craft(Seq<char>),
    Research,
    Generator(Seq<char>),
    Boiler(Seq<char>),
    Free,
}

impl View for Category {
    type V = CategoryV;

    open spec fn view(&self) -> CategoryV {
        match self {
            Category::BurnableFuelEnergy(c) => CategoryV::BurnableFuelEnergy(c@),
            Category::PickaxeMining => CategoryV::PickaxeMining,
            Category::Mining(c) => CategoryV::Mining(c@),
            Category::Craft(c) => CategoryV::Craft(c@),
            Category::Research => CategoryV::Research,
            Category::Generator(c) => CategoryV::Generator(c@),
            Category::Boiler(c) => CategoryV::Boiler(c@),
            Category::Free => CategoryV::Free,
        }
    }
}

impl Clone for Category {
    fn clone(&self) -> (r: Self)
        ensures
            r@ == self@,
    {
        match self {
            Category::BurnableFuelEnergy(c) => Category::BurnableFuelEnergy(c.clone()),
            Category::PickaxeMining => Category::PickaxeMining,
            Category::Mining(c) => Category::Mining(c.clone()),
            Category::Craft(c) => Category::Craft(c.clone()),
            Category::Research => Category::Research,
            Category::Generator(c) => Category::Generator(c.clone()),
            Category::Boiler(c) => Category::Boiler(c.clone()),
            Category::Free => Category::Free,
        }
    }
}

/// Whether two categories are the same matching key.
pub fn category_eq(a: &Category, b: &Category) -> (r: bool)
    ensures
        r == (a@ == b@),
{
    match (a, b) {
        (Category::BurnableFuelEnergy(c1), Category::BurnableFuelEnergy(c2)) => str_eq(
            c1.as_str(),
            c2.as_str(),
        ),
        (Category::PickaxeMining, Category::PickaxeMining) => true,
        (Category::Mining(c1), Category::Mining(c2)) => str_eq(c1.as_str(), c2.as_str()),
        (Category::Craft(c1), Category::Craft(c2)) => str_eq(c1.as_str(), c2.as_str()),
        (Category::Research, Category::Research) => true,
        (Category::Generator(c1), Category::Generator(c2)) => str_eq(c1.as_str(), c2.as_str()),
        (Category::Boiler(c1), Category::Boiler(c2)) => str_eq(c1.as_str(), c2.as_str()),
        (Category::Free, Category::Free) => true,
        _ => false,
    }
}

/// Whether some entry of an item-amount ledger carries key `k`.
pub open spec fn amt_has(s: Seq<(ItemV, int)>, k: ItemV) -> bool {
    exists|i: int| 0 <= i < s.len() && s[i].0 == k
}

/// The index of the ledger entry carrying key `k`.
pub open spec fn amt_idx(s: Seq<(ItemV, int)>, k: ItemV) -> int {
    choose|i: int| 0 <= i < s.len() && s[i].0 == k
}

/// The amount stored under key `k`, if any.
pub open spec fn amt_get(s: Seq<(ItemV, int)>, k: ItemV) -> Option<int> {
    if amt_has(s, k) {
        Some(s[amt_idx(s, k)].1)
    } else {
        None
    }
}

/// Item-amount ledgers with pairwise distinct keys.
pub open spec fn amt_keys_unique(s: Seq<(ItemV, int)>) -> bool {
    forall|i: int, j: int| 0 <= i < j < s.len() ==> s[i].0 != s[j].0
}

/// Adding `v` under key `k`: increase the present amount or append an entry.
pub open spec fn amt_add(s: Seq<(ItemV, int)>, k: ItemV, v: int) -> Seq<(ItemV, int)> {
    if amt_has(s, k) {
        s.update(amt_idx(s, k), (k, spec_add(s[amt_idx(s, k)].1, v)))
    } else {
        s.push((k, v))
    }
}

/// An insertion-ordered ledger from items to dimensionless amounts.
#[derive(Debug)]
pub struct ItemAmounts {
    entries: Vec<(Item, Number<One>)>,
}

impl View for ItemAmounts {
    type V = Seq<(ItemV, int)>;

    closed spec fn view(&self) -> Seq<(ItemV, int)> {
        self.entries@.map_values(|p: (Item, Number<One>)| (p.0@, p.1@))
    }
}

impl Clone for ItemAmounts {
    fn clone(&self) -> (r: Self)
        ensures
            r@ == self@,
    {
        let mut entries: Vec<(Item, Number<One>)> = Vec::new();
        let n = self.entries.len();
        let mut i: usize = 0;
        while i < n
            invariant
                n == self.entries.len(),
                i <= n,
                entries@.len() == i,
                forall|j: int|
                    0 <= j < i ==> (#[trigger] entries@[j]).0@ == self.entries@[j].0@
                        && entries@[j].1 == self.entries@[j].1,
            decreases n - i,
        {
            let pair = &self.entries[i];
            entries.push((pair.0.clone(), pair.1));
            i += 1;
        }
        let r = ItemAmounts { entries };
        proof {
            assert(r@ =~= self@);
        }
        r
    }
}

impl ItemAmounts {
    /// The keys of this ledger are pairwise distinct.
    pub open spec fn wf(&self) -> bool {
        amt_keys_unique(self@)
    }

    /// An empty ledger.
    pub fn new() -> (r: Self)
        ensures
            r@ =~= Seq::<(ItemV, int)>::empty(),
            r.wf(),
    {
        ItemAmounts { entries: Vec::new() }
    }

    /// The number of entries.
    pub fn len(&self) -> (r: usize)
        ensures
            r == self@.len(),
    {
        self.entries.len()
    }

    /// The item of the entry at position `i`.
    pub fn key_at(&self, i: usize) -> (r: &Item)
        requires
            i < self@.len(),
        ensures
            r@ == self@[i as int].0,
    {
        &self.entries[i].0
    }

    /// The amount of the entry at position `i`.
    pub fn val_at(&self, i: usize) -> (r: Number<One>)
        requires
            i < self@.len(),
        ensures
            r@ == self@[i as int].1,
    {
        self.entries[i].1
    }

    /// The position of the entry carrying item `k`, if any.
    pub fn find(&self, k: &Item) -> (r: Option<usize>)
        ensures
            match r {
                Some(i) => i < self@.len() && self@[i as int].0 == k@,
                None => !amt_has(self@, k@),
            },
    {
        let n = self.entries.len();
        let mut i: usize = 0;
        while i < n
            invariant
                n == self@.len(),
                i <= n,
                forall|j: int| 0 <= j < i ==> self@[j].0 != k@,
            decreases n - i,
        {
            if item_eq(&self.entries[i].0, k) {
                return Some(i);
            }
            i += 1;
        }
        None
    }

    /// The amount stored under item `k`, if any.
    pub fn get(&self, k: &Item) -> (r: Option<Number<One>>)
        requires
            self.wf(),
        ensures
            match r {
                Some(v) => amt_get(self@, k@) == Some(v@),
                None => amt_get(self@, k@) is None,
            },
    {
        match self.find(k) {
            Some(i) => {
                proof {
                    assert(self@[i as int].0 == k@);
                    assert(amt_idx(self@, k@) == i as int);
                }
                Some(self.entries[i].1)
            },
            None => None,
        }
    }

    /// Store `v` under item `k`, replacing any present amount.
    pub fn set(&mut self, k: Item, v: Number<One>)
        requires
            old(self).wf(),
        ensures
            final(self).wf(),
            final(self)@ == if amt_has(old(self)@, k@) {
                old(self)@.update(amt_idx(old(self)@, k@), (k@, v@))
            } else {
                old(self)@.push((k@, v@))
            },
    {
        match self.find(&k) {
            Some(i) => {
                proof {
                    assert(self@[i as int].0 == k@);
                    assert(amt_idx(self@, k@) == i as int);
                }
                self.entries.set(i, (k, v));
                proof {
                    assert(self@ =~= old(self)@.update(amt_idx(old(self)@, k@), (k@, v@)));
                }
            },
            None => {
                self.entries.push((k, v));
                proof {
                    assert(self@ =~= old(self)@.push((k@, v@)));
                }
            },
        }
    }

    /// Add `v` to the amount under item `k` (saturating), appending if absent.
    pub fn add(&mut self, k: Item, v: Number<One>)
        requires
            old(self).wf(),
        ensures
            final(self).wf(),
            final(self)@ == amt_add(old(self)@, k@, v@),
    {
        match self.find(&k) {
            Some(i) => {
                proof {
                    assert(self@[i as int].0 == k@);
                    assert(amt_idx(self@, k@) == i as int);
                }
                let sum = self.entries[i].1.add(v);
                self.entries.set(i, (k, sum));
                proof {
                    assert(self@ =~= amt_add(old(self)@, k@, v@));
                }
            },
            None => {
                self.entries.push((k, v));
                proof {
                    assert(self@ =~= amt_add(old(self)@, k@, v@));
                }
            },
        }
    }
}

/// One production activity: what it consumes, what it yields, how long one
/// firing takes (`None` = instantaneous).
#[derive(Debug)]
pub struct Recipe {
    pub name: String,
    pub category: Category,
    pub ingredients: ItemAmounts,
    pub results: ItemAmounts,
    pub crafting_time: Option<Number<One>>,
}

/// The mathematical shape of a `Recipe`.
#[verifier::ext_equal]
pub struct RecipeV {
    pub name: Seq<char>,
    pub category: CategoryV,
    pub ingredients: Seq<(ItemV, int)>,
    pub results: Seq<(ItemV, int)>,
    pub crafting_time: Option<int>,
}

impl View for Recipe {
    type V = RecipeV;

    open spec fn view(&self) -> RecipeV {
        RecipeV {
            name: self.name@,
            category: self.category@,
            ingredients: self.ingredients@,
            results: self.results@,
            crafting_time: match self.crafting_time {
                Some(t) => Some(t@),
                None => None,
            },
        }
    }
}

/// One executor: the categories it covers, its power draw, and its speed.
#[derive(Debug)]
pub struct Machine {
    pub name: String,
    pub categories: Vec<Category>,
    pub energy_usage: ItemAmounts,
    pub crafting_speed: Number<One>,
}

/// The mathematical shape of a `Machine`.
#[verifier::ext_equal]
pub struct MachineV {
    pub name: Seq<char>,
    pub categories: Seq<CategoryV>,
    pub energy_usage: Seq<(ItemV, int)>,
    pub crafting_speed: int,
}

impl View for Machine {
    type V = MachineV;

    open spec fn view(&self) -> MachineV {
        MachineV {
            name: self.name@,
            categories: self.categories@.map_values(|c: Category| c@),
            energy_usage: self.energy_usage@,
            crafting_speed: self.crafting_speed@,
        }
    }
}

/// Whether machine `m` covers category `c`.
pub fn machine_covers(m: &Machine, c: &Category) -> (r: bool)
    ensures
        r == m@.categories.contains(c@),
{
    let n = m.categories.len();
    let mut i: usize = 0;
    while i < n
        invariant
            n == m.categories.len(),
            i <= n,
            forall|j: int| 0 <= j < i ==> m@.categories[j] != c@,
        decreases n - i,
    {
        if category_eq(&m.categories[i], c) {
            proof {
                assert(m@.categories[i as int] == c@);
            }
            return true;
        }
        i += 1;
    }
    proof {
        assert(forall|j: int| 0 <= j < m@.categories.len() ==> m@.categories[j] != c@);
    }
    false
}

/// One technology: its prerequisites and its synthesized research recipe.
#[derive(Debug)]
pub struct Research {
    pub name: String,
    pub dependencies: Vec<String>,
    pub recipe: String,
}

/// The mathematical shape of a `Research`.
#[verifier::ext_equal]
pub struct ResearchV {
    pub name: Seq<char>,
    pub dependencies: Seq<Seq<char>>,
    pub recipe: Seq<char>,
}

impl View for Research {
    type V = ResearchV;

    open spec fn view(&self) -> ResearchV {
        ResearchV {
            name: self.name@,
            dependencies: self.dependencies@.map_values(|d: String| d@),
            recipe: self.recipe@,
        }
    }
}

/// The normalized graph: recipes, machines, and researches by name.
pub struct Graph {
    pub recipes: Dict<Recipe>,
    pub machines: Dict<Machine>,
    pub researches: Dict<Research>,
}

/// The mathematical shape of a `Graph`.
#[verifier::ext_equal]
pub struct GraphV {
    pub recipes: Seq<(Seq<char>, RecipeV)>,
    pub machines: Seq<(Seq<char>, MachineV)>,
    pub researches: Seq<(Seq<char>, ResearchV)>,
}

impl View for Graph {
    type V = GraphV;

    open spec fn view(&self) -> GraphV {
        GraphV { recipes: self.recipes@, machines: self.machines@, researches: self.researches@ }
    }
}

/// A recipe whose ledger entries are all valid items with unique keys,
/// stored under its name.
pub open spec fn wf_recipe_entry(e: (Seq<char>, RecipeV)) -> bool {
    &&& e.0 == e.1.name
    &&& amt_keys_unique(e.1.results)
    &&& amt_keys_unique(e.1.ingredients)
    &&& forall|i: int| 0 <= i < e.1.results.len() ==> valid_item(#[trigger] e.1.results[i].0)
    &&& forall|i: int| 0 <= i < e.1.ingredients.len() ==> valid_item(
        #[trigger] e.1.ingredients[i].0,
    )
}

/// Graph well-formedness: unique names throughout, every record stored under
/// its own name, and every recipe ledger key a valid item.
pub open spec fn wf_graph(g: GraphV) -> bool {
    &&& dict_keys_unique(g.recipes)
    &&& dict_keys_unique(g.machines)
    &&& dict_keys_unique(g.researches)
    &&& forall|i: int| 0 <= i < g.recipes.len() ==> wf_recipe_entry(#[trigger] g.recipes[i])
    &&& forall|i: int| 0 <= i < g.machines.len() ==> (#[trigger] g.machines[i]).0
        == g.machines[i].1.name
    &&& forall|i: int| 0 <= i < g.researches.len() ==> (#[trigger] g.researches[i]).0
        == g.researches[i].1.name
}

} // verus!

verus! {

impl ViewClone for Item {
    fn clone_view(&self) -> (r: Self) {
        self.clone()
    }
}

impl ViewClone for Category {
    fn clone_view(&self) -> (r: Self) {
        self.clone()
    }
}

impl ViewClone for ItemAmounts {
    fn clone_view(&self) -> (r: Self) {
        self.clone()
    }
}

/// A copy of a category list with the same views in the same order.
pub fn clone_categories(v: &Vec<Category>) -> (r: Vec<Category>)
    ensures
        r@.map_values(|c: Category| c@) == v@.map_values(|c: Category| c@),
{
    let mut out: Vec<Category> = Vec::new();
    let n = v.len();
    let mut i: usize = 0;
    while i < n
        invariant
            n == v.len(),
            i <= n,
            out@.len() == i,
            forall|j: int| 0 <= j < i ==> (#[trigger] out@[j])@ == v@[j]@,
        decreases n - i,
    {
        out.push(v[i].clone());
        i += 1;
    }
    proof {
        assert(out@.map_values(|c: Category| c@) =~= v@.map_values(|c: Category| c@));
    }
    out
}

/// A copy of a name list with the same views in the same order.
pub fn clone_names(v: &Vec<String>) -> (r: Vec<String>)
    ensures
        r@.map_values(|s: String| s@) == v@.map_values(|s: String| s@),
{
    let mut out: Vec<String> = Vec::new();
    let n = v.len();
    let mut i: usize = 0;
    while i < n
        invariant
            n == v.len(),
            i <= n,
            out@.len() == i,
            forall|j: int| 0 <= j < i ==> (#[trigger] out@[j])@ == v@[j]@,
        decreases n - i,
    {
        out.push(v[i].clone());
        i += 1;
    }
    proof {
        assert(out@.map_values(|s: String| s@) =~= v@.map_values(|s: String| s@));
    }
    out
}

impl ViewClone for Recipe {
    fn clone_view(&self) -> (r: Self) {
        Recipe {
            name: self.name.clone(),
            category: self.category.clone(),
            ingredients: self.ingredients.clone(),
            results: self.results.clone(),
            crafting_time: self.crafting_time,
        }
    }
}

impl ViewClone for Machine {
    fn clone_view(&self) -> (r: Self) {
        Machine {
            name: self.name.clone(),
            categories: clone_categories(&self.categories),
            energy_usage: self.energy_usage.clone(),
            crafting_speed: self.crafting_speed,
        }
    }
}

impl ViewClone for Research {
    fn clone_view(&self) -> (r: Self) {
        Research {
            name: self.name.clone(),
            dependencies: clone_names(&self.dependencies),
            recipe: self.recipe.clone(),
        }
    }
}

impl ViewClone for Graph {
    fn clone_view(&self) -> (r: Self) {
        Graph {
            recipes: self.recipes.clone_view(),
            machines: self.machines.clone_view(),
            researches: self.researches.clone_view(),
        }
    }
}

} // verus!
