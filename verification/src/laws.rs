//! The laws the planner obeys, stated and proved over the planning model.
//!
//! Graph uniqueness is `wf_graph`, established by `build_graph` and kept by
//! every operation; research idempotence lives next to the research model;
//! the meta-planner's monotonicity is an `ensures` of `think`. The laws here
//! cover the step planner — category soundness, ledger conservation,
//! occupancy consistency, the energy fixed point — and goal containment:
//! a split list extending a single-build bundle leaves the demanded
//! machines owned.

use vstd::prelude::*;

use crate::dict::dict_add;
use crate::dict::dict_has;
use crate::dict::dict_idx;
use crate::dict::dict_keys_unique;
use crate::graph::GraphV;
use crate::graph::ItemV;
use crate::graph::RecipeV;
use crate::graph::amt_has;
use crate::graph::amt_idx;
use crate::qty::SCALE;
use crate::qty::qty_max;
use crate::qty::qty_sat;
use crate::qty::spec_add;
use crate::qty::spec_div_ceil;
use crate::qty::spec_mul;
use crate::step::StepV;
use crate::step::apply_step;
use crate::step::category_covered;
use crate::step::closure_loop;
use crate::step::drain_pending;
use crate::step::drain_usages;
use crate::step::expand_craft;
use crate::step::expand_ingredients;
use crate::step::expand_recipe;
use crate::step::find_recipe_model;
use crate::plan::build_one_bundle;
use crate::plan::run_splits;
use crate::plan::splits_extend;
use crate::step::TasksV;
use crate::step::empty_step;
use crate::step::expand_build_list;
use crate::step::expand_craft_list;
use crate::step::expand_recipe_list;
use crate::step::item_name;
use crate::step::machine_entry;
use crate::step::machine_times_model;
use crate::step::max_values;
use crate::step::sum_values;
use crate::step::run_tasks;
use crate::step::total_speed;
use crate::world::WorldV;

verus! {

/// Graph uniqueness: in a well-formed graph every recipe name, machine name,
/// and research name is unique, and every recipe ledger key is a valid item.
pub proof fn lemma_graph_uniqueness(g: GraphV)
    requires
        crate::graph::wf_graph(g),
    ensures
        dict_keys_unique(g.recipes),
        dict_keys_unique(g.machines),
        dict_keys_unique(g.researches),
        forall|i: int, j: int|
            0 <= i < g.recipes.len() && 0 <= j < (#[trigger] g.recipes[i]).1.results.len()
                ==> crate::graph::valid_item((#[trigger] g.recipes[i].1.results[j]).0),
{
    assert forall|i: int, j: int|
        0 <= i < g.recipes.len() && 0 <= j < (#[trigger] g.recipes[i]).1.results.len()
            implies crate::graph::valid_item((#[trigger] g.recipes[i].1.results[j]).0) by {
        assert(crate::graph::wf_recipe_entry(g.recipes[i]));
    }
}

/// A positive combined speed needs a covering machine.
proof fn lemma_speed_needs_coverage(w: WorldV, c: crate::graph::CategoryV, n: int)
    requires
        total_speed(w, c, n) != 0,
        0 <= n <= w.machines.len(),
    ensures
        category_covered(w, c),
    decreases n,
{
    if n > 0 {
        if crate::step::covers_spec(w.graph, w.machines[n - 1].0, c) {
            assert(category_covered(w, c));
        } else {
            lemma_speed_needs_coverage(w, c, n - 1);
        }
    }
}

/// Category soundness: a recipe with a crafting time fires only when some
/// machine the world owns covers its category. (Instantaneous recipes, such
/// as burning fuel, occupy no machine and need none.)
pub proof fn lemma_category_soundness(w: WorldV, r: RecipeV, crafts: int, fuel: nat, step: StepV)
    requires
        expand_recipe(w, r, crafts, fuel, step) is Ok,
        r.crafting_time is Some,
    ensures
        category_covered(w, r.category),
{
    lemma_speed_needs_coverage(w, r.category, w.machines.len() as int);
}

/// Ledger conservation: a craft of `amount` resolved to a recipe yielding
/// `out` per firing fires `ceil(amount / out)` times, and that many firings
/// yield at least `amount` (the ledger never under-produces; byproducts are
/// not credited back). This holds whenever the firing count itself is
/// representable; a count past the numeric range saturates and under-counts.
pub proof fn lemma_ledger_conservation(amount: int, out: int)
    requires
        0 <= amount <= qty_max(),
        0 < out,
        (amount * (SCALE as int) + out - 1) / out <= qty_max(),
    ensures
        spec_mul(spec_div_ceil(amount, out), out) >= amount,
{
    let exact = (amount * (SCALE as int) + out - 1) / out;
    assert(exact * out >= amount * (SCALE as int)) by (nonlinear_arith)
        requires
            exact == (amount * (SCALE as int) + out - 1) / out,
            amount >= 0,
            out > 0,
    ;
    assert(exact >= 0) by (nonlinear_arith)
        requires
            amount >= 0,
            out > 0,
            exact == (amount * (SCALE as int) + out - 1) / out,
    ;
    let c = spec_div_ceil(amount, out);
    assert(c == exact);
    assert((c * out) / (SCALE as int) >= amount) by (nonlinear_arith)
        requires
            c * out >= amount * (SCALE as int),
            amount >= 0,
    ;
}

/// Occupancy consistency: applying a step accumulates exactly the sum of the
/// per-group wall-clock times into the total machine time, and advances the
/// clock by exactly the largest of them.
pub proof fn lemma_occupancy_consistency(w: WorldV, s: StepV)
    requires
        apply_step(w, s) is Ok,
    ensures
        apply_step(w, s) matches Ok(w2) && machine_times_model(w, s.times, Seq::empty()) matches Ok(
            wall,
        ) && w2.total_machine_time == spec_add(w.total_machine_time, sum_values(wall)) && w2.time
            == spec_add(w.time, max_values(wall)),
{
}

/// A quiet drain of one machine's usages: when nothing was fed back, every
/// demand was below one whole unit.
proof fn lemma_drain_usages_quiet(
    w: WorldV,
    usages: Seq<(ItemV, int)>,
    t: int,
    step: StepV,
    fed: bool,
)
    requires
        drain_usages(w, usages, t, step, fed) matches Ok(p) && p.1 == false,
    ensures
        forall|j: int| 0 <= j < usages.len() ==> spec_mul((#[trigger] usages[j]).1, t) < SCALE,
    decreases usages.len(),
{
    if usages.len() > 0 {
        let d = spec_mul(usages[0].1, t);
        if d >= SCALE {
            match expand_craft(w, usages[0].0, d, crate::step::EXPAND_DEPTH as nat, step) {
                Err(_) => {},
                Ok(s1) => {
                    lemma_drain_fed_stays(w, usages.drop_first(), t, s1);
                    assert(false);
                },
            }
        } else {
            lemma_drain_usages_quiet(w, usages.drop_first(), t, step, fed);
            assert(forall|j: int|
                1 <= j < usages.len() ==> usages.drop_first()[j - 1] == #[trigger] usages[j]);
        }
    }
}

/// Once something was fed back, a drain stays fed.
proof fn lemma_drain_fed_stays(w: WorldV, usages: Seq<(ItemV, int)>, t: int, step: StepV)
    requires
        drain_usages(w, usages, t, step, true) is Ok,
    ensures
        drain_usages(w, usages, t, step, true) matches Ok(p) && p.1 == true,
    decreases usages.len(),
{
    if usages.len() > 0 {
        let d = spec_mul(usages[0].1, t);
        if d >= SCALE {
            match expand_craft(w, usages[0].0, d, crate::step::EXPAND_DEPTH as nat, step) {
                Err(_) => {},
                Ok(s1) => {
                    lemma_drain_fed_stays(w, usages.drop_first(), t, s1);
                },
            }
        } else {
            lemma_drain_fed_stays(w, usages.drop_first(), t, step);
        }
    }
}

/// A quiet drain of a pending batch: when nothing was fed back, every energy
/// demand of every drained machine was below one whole unit.
proof fn lemma_drain_pending_quiet(
    w: WorldV,
    pending: Seq<(Seq<char>, int)>,
    totals: Seq<(Seq<char>, int)>,
    step: StepV,
)
    requires
        drain_pending(w, pending, totals, step, false) matches Ok(p) && p.2 == false,
    ensures
        forall|i: int, j: int|
            0 <= i < pending.len() && {
                let m = machine_entry(w.graph, (#[trigger] pending[i]).0);
                0 <= j < m.energy_usage.len()
            } ==> {
                let m = machine_entry(w.graph, pending[i].0);
                spec_mul((#[trigger] machine_entry(w.graph, pending[i].0).energy_usage[j]).1,
                pending[i].1) < SCALE
            },
    decreases pending.len(),
{
    if pending.len() > 0 {
        let name = pending[0].0;
        let t = pending[0].1;
        let totals1 = crate::dict::dict_add(totals, name, t);
        let m = machine_entry(w.graph, name);
        match drain_usages(w, m.energy_usage, t, step, false) {
            Err(_) => {},
            Ok(p1) => {
                if p1.1 {
                    lemma_drain_true_pending(w, pending.drop_first(), totals1, p1.0);
                    assert(false);
                } else {
                    lemma_drain_usages_quiet(w, m.energy_usage, t, step, false);
                    lemma_drain_pending_quiet(w, pending.drop_first(), totals1, p1.0);
                    assert(forall|i: int|
                        1 <= i < pending.len() ==> pending.drop_first()[i - 1] == #[trigger] pending[
                        i]);
                }
            },
        }
    }
}

/// Once something was fed back, draining the rest of the batch stays fed.
proof fn lemma_drain_true_pending(
    w: WorldV,
    pending: Seq<(Seq<char>, int)>,
    totals: Seq<(Seq<char>, int)>,
    step: StepV,
)
    requires
        drain_pending(w, pending, totals, step, true) is Ok,
    ensures
        drain_pending(w, pending, totals, step, true) matches Ok(p) && p.2 == true,
    decreases pending.len(),
{
    if pending.len() > 0 {
        let name = pending[0].0;
        let t = pending[0].1;
        let totals1 = crate::dict::dict_add(totals, name, t);
        if dict_has(w.graph.machines, name) {
            let m = machine_entry(w.graph, name);
            match drain_usages(w, m.energy_usage, t, step, true) {
                Err(_) => {},
                Ok(p1) => {
                    lemma_drain_fed_stays(w, m.energy_usage, t, step);
                    lemma_drain_true_pending(w, pending.drop_first(), totals1, p1.0);
                },
            }
        }
    }
}

/// Energy fixed point: when the closure settles, the residual batch — the
/// last drained per-machine occupancy — leaves every machine's outstanding
/// energy demand below one whole unit per machine class.
pub proof fn lemma_energy_fixed_point(
    w: WorldV,
    step: StepV,
    totals: Seq<(Seq<char>, int)>,
    rounds: nat,
)
    requires
        closure_loop(w, step, totals, rounds) is Ok,
    ensures
        closure_loop(w, step, totals, rounds) matches Ok(p) && forall|i: int, j: int|
            0 <= i < p.1.len() && {
                let m = machine_entry(w.graph, (#[trigger] p.1[i]).0);
                0 <= j < m.energy_usage.len()
            } ==> spec_mul((#[trigger] machine_entry(w.graph, p.1[i].0).energy_usage[j]).1,
            p.1[i].1) < SCALE,
    decreases rounds,
{
    let pending = step.times;
    if pending.len() == 0 {
    } else {
        let step0 = StepV { times: Seq::empty(), ..step };
        match drain_pending(w, pending, totals, step0, false) {
            Err(_) => {},
            Ok(p1) => {
                if p1.2 {
                    lemma_energy_fixed_point(w, p1.1, p1.0, (rounds - 1) as nat);
                } else {
                    lemma_drain_pending_quiet(w, pending, totals, step0);
                }
            },
        }
    }
}


/// The amount a ledger holds under a key, zero when absent.
pub open spec fn count_of(s: Seq<(Seq<char>, int)>, k: Seq<char>) -> int {
    if dict_has(s, k) {
        s[dict_idx(s, k)].1
    } else {
        0
    }
}

/// A ledger whose amounts lie in the representable range.
pub open spec fn bounded_ledger(s: Seq<(Seq<char>, int)>) -> bool {
    forall|i: int| 0 <= i < s.len() ==> 0 <= (#[trigger] s[i]).1 <= qty_max()
}

/// What `dict_add` does to the counts: the added key grows by `v`
/// (saturating), every other key keeps its count.
proof fn lemma_dict_add_counts(s: Seq<(Seq<char>, int)>, k: Seq<char>, v: int)
    requires
        crate::dict::dict_keys_unique(s),
        bounded_ledger(s),
        0 <= v <= qty_max(),
    ensures
        crate::dict::dict_keys_unique(dict_add(s, k, v)),
        bounded_ledger(dict_add(s, k, v)),
        count_of(dict_add(s, k, v), k) == spec_add(count_of(s, k), v),
        forall|k2: Seq<char>| k2 != k ==> count_of(dict_add(s, k, v), k2) == count_of(s, k2),
{
    let s2 = dict_add(s, k, v);
    if dict_has(s, k) {
        let i = dict_idx(s, k);
        assert(s2[i].0 == k);
        assert(dict_idx(s2, k) == i);
        assert forall|k2: Seq<char>| k2 != k implies count_of(s2, k2) == count_of(s, k2) by {
            if dict_has(s, k2) {
                let j = dict_idx(s, k2);
                assert(j != i);
                assert(s2[j] == s[j]);
                assert(dict_idx(s2, k2) == j);
            } else {
                if dict_has(s2, k2) {
                    let j = dict_idx(s2, k2);
                    assert(s[j].0 == k2);
                }
            }
        }
    } else {
        assert(s2[s.len() as int].0 == k);
        assert(dict_idx(s2, k) == s.len() as int);
        assert forall|k2: Seq<char>| k2 != k implies count_of(s2, k2) == count_of(s, k2) by {
            if dict_has(s, k2) {
                let j = dict_idx(s, k2);
                assert(s2[j] == s[j]);
                assert(dict_idx(s2, k2) == j);
            } else {
                if dict_has(s2, k2) {
                    let j = dict_idx(s2, k2);
                    assert(j < s.len() ==> s[j].0 == k2);
                    assert(j == s.len());
                    assert(s2[j].0 == k);
                }
            }
        }
    }
}

/// Expanding a craft demand only grows the crafts ledger.
proof fn lemma_expand_craft_monotone(w: WorldV, item: ItemV, amount: int, fuel: nat, step: StepV)
    requires
        crate::dict::dict_keys_unique(step.crafts),
        bounded_ledger(step.crafts),
        expand_craft(w, item, amount, fuel, step) is Ok,
    ensures
        expand_craft(w, item, amount, fuel, step) matches Ok(s2) && crate::dict::dict_keys_unique(
            s2.crafts,
        ) && bounded_ledger(s2.crafts) && forall|k: Seq<char>|
            count_of(s2.crafts, k) >= count_of(step.crafts, k),
    decreases fuel, 3int, 0int,
{
    match find_recipe_model(w, item) {
        Err(_) => {},
        Ok(name) => {
            if dict_has(w.graph.recipes, name) {
                let r = w.graph.recipes[dict_idx(w.graph.recipes, name)].1;
                if amt_has(r.results, item) {
                    let crafts = spec_div_ceil(amount, r.results[amt_idx(r.results, item)].1);
                    lemma_expand_recipe_monotone(w, r, crafts, fuel, step);
                }
            }
        },
    }
}

/// Expanding a recipe only grows the crafts ledger.
proof fn lemma_expand_recipe_monotone(w: WorldV, r: RecipeV, crafts: int, fuel: nat, step: StepV)
    requires
        crate::dict::dict_keys_unique(step.crafts),
        bounded_ledger(step.crafts),
        expand_recipe(w, r, crafts, fuel, step) is Ok,
        0 <= crafts <= qty_max(),
    ensures
        expand_recipe(w, r, crafts, fuel, step) matches Ok(s2) && crate::dict::dict_keys_unique(
            s2.crafts,
        ) && bounded_ledger(s2.crafts) && count_of(s2.crafts, r.name) >= spec_add(
            count_of(step.crafts, r.name),
            crafts,
        ) && forall|k: Seq<char>| count_of(s2.crafts, k) >= count_of(step.crafts, k),
    decreases fuel, 1int, 0int,
{
    lemma_dict_add_counts(step.crafts, r.name, crafts);
    let step1 = StepV { crafts: dict_add(step.crafts, r.name, crafts), ..step };
    lemma_expand_ingredients_monotone(w, r.ingredients, crafts, fuel, step1);
}

/// Expanding an ingredient list only grows the crafts ledger.
proof fn lemma_expand_ingredients_monotone(
    w: WorldV,
    ings: Seq<(ItemV, int)>,
    crafts: int,
    fuel: nat,
    step: StepV,
)
    requires
        crate::dict::dict_keys_unique(step.crafts),
        bounded_ledger(step.crafts),
        expand_ingredients(w, ings, crafts, fuel, step) is Ok,
    ensures
        expand_ingredients(w, ings, crafts, fuel, step) matches Ok(s2)
            && crate::dict::dict_keys_unique(s2.crafts) && bounded_ledger(s2.crafts) && forall|
            k: Seq<char>,
        |
            count_of(s2.crafts, k) >= count_of(step.crafts, k),
    decreases fuel, 0int, ings.len(),
{
    if ings.len() == 0 {
    } else if fuel == 0 {
    } else {
        match expand_craft(w, ings[0].0, spec_mul(ings[0].1, crafts), (fuel - 1) as nat, step) {
            Err(_) => {},
            Ok(s1) => {
                lemma_expand_craft_monotone(
                    w,
                    ings[0].0,
                    spec_mul(ings[0].1, crafts),
                    (fuel - 1) as nat,
                    step,
                );
                lemma_expand_ingredients_monotone(w, ings.drop_first(), crafts, fuel, s1);
            },
        }
    }
}

/// Saturating fixed-point multiplication grows with its first argument.
proof fn lemma_spec_mul_monotone(a1: int, a2: int, b: int)
    requires
        0 <= a2 <= a1,
        0 <= b,
    ensures
        spec_mul(a1, b) >= spec_mul(a2, b),
{
    assert(a1 * b >= a2 * b) by (nonlinear_arith)
        requires
            0 <= a2 <= a1,
            0 <= b,
    ;
    assert((a1 * b) / (SCALE as int) >= (a2 * b) / (SCALE as int)) by (nonlinear_arith)
        requires
            a1 * b >= a2 * b,
    ;
}

/// Ledger conservation at the step ledger: a craft of `amount` resolved to
/// recipe `nm` leaves at least `ceil(amount / out)` firings of `nm` in the
/// crafts ledger, and those firings yield at least `amount` of the item
/// whenever the accumulated count stays representable.
pub proof fn lemma_craft_ledger_conservation(
    w: WorldV,
    item: ItemV,
    amount: int,
    fuel: nat,
    step: StepV,
    nm: Seq<char>,
)
    requires
        crate::graph::wf_graph(w.graph),
        crate::dict::dict_keys_unique(step.crafts),
        bounded_ledger(step.crafts),
        0 <= amount <= qty_max(),
        expand_craft(w, item, amount, fuel, step) is Ok,
        find_recipe_model(w, item) == Ok::<Seq<char>, crate::step::PlanErrorV>(nm),
        dict_has(w.graph.recipes, nm),
    ensures
        expand_craft(w, item, amount, fuel, step) matches Ok(s2) && {
            let r = w.graph.recipes[dict_idx(w.graph.recipes, nm)].1;
            amt_has(r.results, item) && {
                let out = r.results[amt_idx(r.results, item)].1;
                &&& count_of(s2.crafts, nm) >= spec_div_ceil(amount, out)
                &&& (0 < out && (amount * (SCALE as int) + out - 1) / out <= qty_max()
                    && count_of(s2.crafts, nm) < qty_max() ==> spec_mul(
                    count_of(s2.crafts, nm),
                    out,
                ) >= amount)
            }
        },
{
    let r = w.graph.recipes[dict_idx(w.graph.recipes, nm)].1;
    assert(crate::graph::wf_recipe_entry(w.graph.recipes[dict_idx(w.graph.recipes, nm)]));
    assert(r.name == nm);
    assert(amt_has(r.results, item));
    let out = r.results[amt_idx(r.results, item)].1;
    let crafts = spec_div_ceil(amount, out);
    lemma_expand_recipe_monotone(w, r, crafts, fuel, step);
    let s2 = expand_craft(w, item, amount, fuel, step)->Ok_0;
    assert(count_of(s2.crafts, nm) >= spec_add(count_of(step.crafts, nm), crafts));
    assert(count_of(s2.crafts, nm) >= crafts) by {
        if count_of(step.crafts, nm) + crafts > qty_max() {
            assert(spec_add(count_of(step.crafts, nm), crafts) == qty_max());
        }
    }
    if 0 < out && (amount * (SCALE as int) + out - 1) / out <= qty_max() && count_of(
        s2.crafts,
        nm,
    ) < qty_max() {
        lemma_ledger_conservation(amount, out);
        lemma_spec_mul_monotone(count_of(s2.crafts, nm), crafts, out);
    }
}


/// Ledger accumulation commutes: adding two amounts in either order leaves
/// every key with the same count. This is the commutativity behind the
/// order-independence of expansion within one bundle — per-entry
/// contributions are summed, and saturating addition of amounts in range is
/// associative and commutative — while the planner itself fixes the bundle's
/// insertion order to stay deterministic.
pub proof fn lemma_dict_add_commutes(
    s: Seq<(Seq<char>, int)>,
    k1: Seq<char>,
    v1: int,
    k2: Seq<char>,
    v2: int,
    k: Seq<char>,
)
    requires
        dict_keys_unique(s),
        bounded_ledger(s),
        0 <= v1 <= qty_max(),
        0 <= v2 <= qty_max(),
    ensures
        count_of(dict_add(dict_add(s, k1, v1), k2, v2), k) == count_of(
            dict_add(dict_add(s, k2, v2), k1, v1),
            k,
        ),
{
    lemma_dict_add_counts(s, k1, v1);
    lemma_dict_add_counts(s, k2, v2);
    lemma_dict_add_counts(dict_add(s, k1, v1), k2, v2);
    lemma_dict_add_counts(dict_add(s, k2, v2), k1, v1);
    let lhs = dict_add(dict_add(s, k1, v1), k2, v2);
    let rhs = dict_add(dict_add(s, k2, v2), k1, v1);
    let c = count_of(s, k);
    assert(c >= 0);
    if k1 == k2 {
        if k == k1 {
            assert(count_of(lhs, k) == spec_add(spec_add(c, v1), v2));
            assert(count_of(rhs, k) == spec_add(spec_add(c, v2), v1));
            assert(spec_add(spec_add(c, v1), v2) == qty_sat(c + v1 + v2));
            assert(spec_add(spec_add(c, v2), v1) == qty_sat(c + v1 + v2));
        } else {
            assert(count_of(lhs, k) == c);
            assert(count_of(rhs, k) == c);
        }
    } else {
        if k == k1 {
            assert(count_of(lhs, k) == spec_add(c, v1));
            assert(count_of(rhs, k) == spec_add(c, v1));
        } else if k == k2 {
            assert(count_of(lhs, k) == spec_add(c, v2));
            assert(count_of(rhs, k) == spec_add(c, v2));
        } else {
            assert(count_of(lhs, k) == c);
            assert(count_of(rhs, k) == c);
        }
    }
}

/// Expanding a craft demand never touches the builds ledger.
proof fn lemma_craft_keeps_builds(w: WorldV, item: ItemV, amount: int, fuel: nat, step: StepV)
    requires
        expand_craft(w, item, amount, fuel, step) is Ok,
    ensures
        expand_craft(w, item, amount, fuel, step) matches Ok(s2) && s2.builds == step.builds,
    decreases fuel, 3int, 0int,
{
    match find_recipe_model(w, item) {
        Err(_) => {},
        Ok(name) => {
            if dict_has(w.graph.recipes, name) {
                let r = w.graph.recipes[dict_idx(w.graph.recipes, name)].1;
                if amt_has(r.results, item) {
                    let crafts = spec_div_ceil(amount, r.results[amt_idx(r.results, item)].1);
                    lemma_recipe_keeps_builds(w, r, crafts, fuel, step);
                }
            }
        },
    }
}

/// Expanding a recipe never touches the builds ledger.
proof fn lemma_recipe_keeps_builds(w: WorldV, r: RecipeV, crafts: int, fuel: nat, step: StepV)
    requires
        expand_recipe(w, r, crafts, fuel, step) is Ok,
    ensures
        expand_recipe(w, r, crafts, fuel, step) matches Ok(s2) && s2.builds == step.builds,
    decreases fuel, 1int, 0int,
{
    let step1 = StepV { crafts: dict_add(step.crafts, r.name, crafts), ..step };
    lemma_ingredients_keep_builds(w, r.ingredients, crafts, fuel, step1);
}

/// Expanding an ingredient list never touches the builds ledger.
proof fn lemma_ingredients_keep_builds(
    w: WorldV,
    ings: Seq<(ItemV, int)>,
    crafts: int,
    fuel: nat,
    step: StepV,
)
    requires
        expand_ingredients(w, ings, crafts, fuel, step) is Ok,
    ensures
        expand_ingredients(w, ings, crafts, fuel, step) matches Ok(s2) && s2.builds
            == step.builds,
    decreases fuel, 0int, ings.len(),
{
    if ings.len() == 0 {
    } else if fuel == 0 {
    } else {
        match expand_craft(w, ings[0].0, spec_mul(ings[0].1, crafts), (fuel - 1) as nat, step) {
            Err(_) => {},
            Ok(s1) => {
                lemma_craft_keeps_builds(
                    w,
                    ings[0].0,
                    spec_mul(ings[0].1, crafts),
                    (fuel - 1) as nat,
                    step,
                );
                lemma_ingredients_keep_builds(w, ings.drop_first(), crafts, fuel, s1);
            },
        }
    }
}

/// Draining one machine's usages never touches the builds ledger.
proof fn lemma_usages_keep_builds(
    w: WorldV,
    usages: Seq<(ItemV, int)>,
    t: int,
    step: StepV,
    fed: bool,
)
    requires
        drain_usages(w, usages, t, step, fed) is Ok,
    ensures
        drain_usages(w, usages, t, step, fed) matches Ok(p) && p.0.builds == step.builds,
    decreases usages.len(),
{
    if usages.len() > 0 {
        let d = spec_mul(usages[0].1, t);
        if d >= SCALE {
            match expand_craft(w, usages[0].0, d, crate::step::EXPAND_DEPTH as nat, step) {
                Err(_) => {},
                Ok(s1) => {
                    lemma_craft_keeps_builds(
                        w,
                        usages[0].0,
                        d,
                        crate::step::EXPAND_DEPTH as nat,
                        step,
                    );
                    lemma_usages_keep_builds(w, usages.drop_first(), t, s1, true);
                },
            }
        } else {
            lemma_usages_keep_builds(w, usages.drop_first(), t, step, fed);
        }
    }
}

/// Draining a pending batch never touches the builds ledger.
proof fn lemma_pending_keeps_builds(
    w: WorldV,
    pending: Seq<(Seq<char>, int)>,
    totals: Seq<(Seq<char>, int)>,
    step: StepV,
    fed: bool,
)
    requires
        drain_pending(w, pending, totals, step, fed) is Ok,
    ensures
        drain_pending(w, pending, totals, step, fed) matches Ok(p) && p.1.builds == step.builds,
    decreases pending.len(),
{
    if pending.len() > 0 {
        let name = pending[0].0;
        let t = pending[0].1;
        let totals1 = dict_add(totals, name, t);
        if dict_has(w.graph.machines, name) {
            let m = machine_entry(w.graph, name);
            match drain_usages(w, m.energy_usage, t, step, fed) {
                Err(_) => {},
                Ok(p1) => {
                    lemma_usages_keep_builds(w, m.energy_usage, t, step, fed);
                    lemma_pending_keeps_builds(w, pending.drop_first(), totals1, p1.0, p1.1);
                },
            }
        }
    }
}

/// The energy closure never touches the builds ledger.
proof fn lemma_closure_keeps_builds(
    w: WorldV,
    step: StepV,
    totals: Seq<(Seq<char>, int)>,
    rounds: nat,
)
    requires
        closure_loop(w, step, totals, rounds) is Ok,
    ensures
        closure_loop(w, step, totals, rounds) matches Ok(p) && p.0.builds == step.builds,
    decreases rounds,
{
    let pending = step.times;
    if pending.len() == 0 {
    } else {
        let step0 = StepV { times: Seq::empty(), ..step };
        match drain_pending(w, pending, totals, step0, false) {
            Err(_) => {},
            Ok(p1) => {
                lemma_pending_keeps_builds(w, pending, totals, step0, false);
                if p1.2 {
                    lemma_closure_keeps_builds(w, p1.1, p1.0, (rounds - 1) as nat);
                }
            },
        }
    }
}

/// Running a bundle whose only goal is one build of `a` machines adds
/// exactly `a` to that machine's owned count.
proof fn lemma_run_single_build(w: WorldV, t: TasksV)
    requires
        run_tasks(w, t) is Ok,
        t.craft == Seq::<(ItemV, int)>::empty(),
        t.craft_recipe == Seq::<(Seq<char>, int)>::empty(),
        t.build.len() == 1,
    ensures
        run_tasks(w, t) matches Ok(w2) && t.build[0].0 is Tangible && w2.machines == dict_add(
            w.machines,
            item_name(t.build[0].0),
            t.build[0].1,
        ),
{
    assert(expand_craft_list(w, t.craft, empty_step()) == Ok::<StepV, crate::step::PlanErrorV>(
        empty_step(),
    ));
    assert(expand_recipe_list(w, t.craft_recipe, empty_step()) == Ok::<
        StepV,
        crate::step::PlanErrorV,
    >(empty_step()));
    let it = t.build[0].0;
    let a = t.build[0].1;
    assert(t.build.drop_first().len() == 0);
    match crate::step::expand_build(w, it, a, crate::step::EXPAND_DEPTH as nat, empty_step()) {
        Err(_) => {
            assert(expand_build_list(w, t.build, empty_step()) is Err);
        },
        Ok(s1) => {
            assert(expand_build_list(w, t.build.drop_first(), s1) == Ok::<
                StepV,
                crate::step::PlanErrorV,
            >(s1));
            assert(expand_build_list(w, t.build, empty_step()) == Ok::<
                StepV,
                crate::step::PlanErrorV,
            >(s1));
            match it {
                ItemV::Energy { .. } => {
                    assert(false);
                },
                ItemV::Tangible { name } => {
                    let step1 = StepV {
                        builds: dict_add(empty_step().builds, name, a),
                        ..empty_step()
                    };
                    match expand_craft(w, it, a, crate::step::EXPAND_DEPTH as nat, step1) {
                        Err(_) => {},
                        Ok(sc) => {
                            lemma_craft_keeps_builds(
                                w,
                                it,
                                a,
                                crate::step::EXPAND_DEPTH as nat,
                                step1,
                            );
                            assert(s1 == sc);
                            assert(s1.builds == step1.builds);
                            assert(s1.builds =~= seq![(name, a)]);
                        },
                    }
                },
            }
            assert(s1.builds =~= seq![(item_name(it), a)]);
            match closure_loop(w, s1, Seq::empty(), crate::step::CLOSURE_ROUNDS as nat) {
                Err(_) => {},
                Ok(p) => {
                    lemma_closure_keeps_builds(
                        w,
                        s1,
                        Seq::empty(),
                        crate::step::CLOSURE_ROUNDS as nat,
                    );
                    assert(p.0.builds =~= seq![(item_name(it), a)]);
                    match machine_times_model(w, p.0.times, Seq::empty()) {
                        Err(_) => {},
                        Ok(_) => {
                            assert(p.0.builds.drop_first().len() == 0);
                            assert(p.0.builds[0] == (item_name(it), a));
                            assert(crate::step::apply_builds(w.graph, w.machines, p.0.builds)
                                is Ok);
                            assert(dict_has(w.graph.machines, item_name(it)));
                            assert(crate::step::apply_builds(
                                w.graph,
                                dict_add(w.machines, item_name(it), a),
                                p.0.builds.drop_first(),
                            ) == Ok::<Seq<(Seq<char>, int)>, crate::step::PlanErrorV>(dict_add(
                                w.machines,
                                item_name(it),
                                a,
                            )));
                            assert(crate::step::apply_builds(w.graph, w.machines, p.0.builds)
                                == Ok::<Seq<(Seq<char>, int)>, crate::step::PlanErrorV>(dict_add(
                                w.machines,
                                item_name(it),
                                a,
                            )));
                        },
                    }
                },
            }
        },
    }
}

/// Running build-one bundles only never shrinks a machine's owned count.
proof fn lemma_run_buildones(
    w0: WorldV,
    w: WorldV,
    sp: Seq<TasksV>,
    nm: Seq<char>,
)
    requires
        splits_extend(w0, Seq::<TasksV>::empty(), sp),
        run_splits(w, sp) is Ok,
        dict_keys_unique(w.machines),
        bounded_ledger(w.machines),
    ensures
        run_splits(w, sp) matches Ok(w2) && count_of(w2.machines, nm) >= count_of(w.machines, nm)
            && dict_keys_unique(w2.machines) && bounded_ledger(w2.machines),
    decreases sp.len(),
{
    if sp.len() > 0 {
        assert(build_one_bundle(w0, sp[0]));
        let m = choose|m: Seq<char>|
            {
                &&& #[trigger] sp[0].build == seq![
                    (ItemV::Tangible { name: m }, crate::qty::spec_whole(1)),
                ]
                &&& crate::dict::dict_has(w0.machines, m)
                &&& find_recipe_model(w0, ItemV::Tangible { name: m }) is Ok
            };
        match run_tasks(w, sp[0]) {
            Err(_) => {},
            Ok(w1) => {
                lemma_run_single_build(w, sp[0]);
                lemma_dict_add_counts(w.machines, m, crate::qty::spec_whole(1));
                lemma_run_buildones(w0, w1, sp.drop_first(), nm);
            },
        }
    }
}

/// Goal containment for builds: running any split list that extends a
/// single-build bundle demands a tangible machine item and leaves at least
/// the demanded count of that machine owned.
pub proof fn lemma_extend_build_count(w0: WorldV, w: WorldV, sp: Seq<TasksV>, it: ItemV, a: int)
    requires
        splits_extend(w0, seq![crate::plan::tasks_of_build(it, a)], sp),
        0 <= a <= qty_max(),
        run_splits(w, sp) is Ok,
        dict_keys_unique(w.machines),
        bounded_ledger(w.machines),
    ensures
        run_splits(w, sp) matches Ok(w2) && it is Tangible && count_of(
            w2.machines,
            item_name(it),
        ) >= a,
    decreases sp.len(),
{
    let goal = crate::plan::tasks_of_build(it, a);
    assert(sp.len() > 0);
    if seq![goal].len() > 0 && sp[0] == seq![goal][0] && splits_extend(
        w0,
        seq![goal].drop_first(),
        sp.drop_first(),
    ) {
        assert(seq![goal].drop_first() =~= Seq::<TasksV>::empty());
        match run_tasks(w, sp[0]) {
            Err(_) => {},
            Ok(w1) => {
                lemma_run_single_build(w, sp[0]);
                lemma_dict_add_counts(w.machines, item_name(it), a);
                lemma_run_buildones(w0, w1, sp.drop_first(), item_name(it));
            },
        }
    } else {
        assert(build_one_bundle(w0, sp[0]));
        let m = choose|m: Seq<char>|
            {
                &&& #[trigger] sp[0].build == seq![
                    (ItemV::Tangible { name: m }, crate::qty::spec_whole(1)),
                ]
                &&& crate::dict::dict_has(w0.machines, m)
                &&& find_recipe_model(w0, ItemV::Tangible { name: m }) is Ok
            };
        match run_tasks(w, sp[0]) {
            Err(_) => {},
            Ok(w1) => {
                lemma_run_single_build(w, sp[0]);
                lemma_dict_add_counts(w.machines, m, crate::qty::spec_whole(1));
                lemma_extend_build_count(w0, w1, sp.drop_first(), it, a);
            },
        }
    }
}

} // verus!
