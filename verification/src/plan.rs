//! Plans and the hill-climbing meta-planner.
//!
//! A `Plan` is an ordered list of task bundles ("splits") executed in
//! sequence. The `Planner` wraps the splits queued so far and, unless the
//! world says `no_thinking`, tries to improve the plan by inserting "build
//! one more machine" bundles wherever that strictly reduces the objective:
//! the elapsed wall-clock time in started minutes, with the accumulated
//! machine-time as a tie-breaker.

use vstd::prelude::*;
use vstd::string::StringExecFns;

use crate::dict::ViewClone;
use crate::graph::Item;
use crate::graph::ItemV;
use crate::qty::Number;
use crate::qty::One;
use crate::qty::Seconds;
use crate::qty::spec_ceil;
use crate::qty::spec_div;
use crate::qty::spec_whole;
use crate::step::PlanError;
use crate::step::PlanErrorV;
use crate::step::Tasks;
use crate::step::TasksV;
use crate::step::find_recipe_for;
use crate::step::find_recipe_model;
use crate::step::run_tasks;
use crate::world::World;
use crate::world::WorldV;
use crate::world::wf_world;

verus! {

/// How many improvement rounds the meta-planner may take.
pub const THINK_ROUNDS: u64 = 64;

/// The views of a list of task bundles.
pub open spec fn splits_view(s: Seq<Tasks>) -> Seq<TasksV> {
    s.map_values(|t: Tasks| t@)
}

/// Execute the splits in order, each one as one planning step.
pub open spec fn run_splits(w: WorldV, splits: Seq<TasksV>) -> Result<WorldV, PlanErrorV>
    decreases splits.len(),
{
    if splits.len() == 0 {
        Ok(w)
    } else {
        match run_tasks(w, splits[0]) {
            Err(e) => Err(e),
            Ok(w1) => run_splits(w1, splits.drop_first()),
        }
    }
}

/// Running one more bundle after a split list runs the list, then the bundle.
proof fn lemma_run_splits_snoc(w: WorldV, s: Seq<TasksV>, t: TasksV)
    ensures
        run_splits(w, s.push(t)) == (match run_splits(w, s) {
            Ok(w1) => run_tasks(w1, t),
            Err(e) => Err::<WorldV, PlanErrorV>(e),
        }),
    decreases s.len(),
{
    if s.len() == 0 {
        assert(s.push(t)[0] == t);
        assert(s.push(t).drop_first() =~= s);
        match run_tasks(w, t) {
            Err(e) => {
                assert(run_splits(w, s.push(t)) == Err::<WorldV, PlanErrorV>(e));
            },
            Ok(w1) => {
                assert(run_splits(w1, s) == Ok::<WorldV, PlanErrorV>(w1));
                assert(run_splits(w, s.push(t)) == Ok::<WorldV, PlanErrorV>(w1));
            },
        }
    } else {
        assert(s.push(t)[0] == s[0]);
        assert(s.push(t).drop_first() =~= s.drop_first().push(t));
        match run_tasks(w, s[0]) {
            Err(e) => {
                assert(run_splits(w, s.push(t)) == Err::<WorldV, PlanErrorV>(e));
            },
            Ok(w1) => {
                lemma_run_splits_snoc(w1, s.drop_first(), t);
                assert(run_splits(w, s.push(t)) == run_splits(w1, s.drop_first().push(t)));
            },
        }
    }
}

/// The meta-planner's objective: elapsed time in started minutes first, the
/// accumulated machine-time as a tie-breaker.
pub open spec fn objective(w: WorldV) -> (int, int) {
    (spec_ceil(spec_div(w.time, spec_whole(60))), w.total_machine_time)
}

/// Lexicographic strict order on objectives.
pub open spec fn obj_lt(a: (int, int), b: (int, int)) -> bool {
    a.0 < b.0 || (a.0 == b.0 && a.1 < b.1)
}

/// Lexicographic order on objectives.
pub open spec fn obj_le(a: (int, int), b: (int, int)) -> bool {
    obj_lt(a, b) || a == b
}

/// The objective that executing `splits` from `w` would reach.
pub open spec fn sim_objective(w: WorldV, splits: Seq<TasksV>) -> Result<(int, int), PlanErrorV> {
    match run_splits(w, splits) {
        Err(e) => Err(e),
        Ok(w2) => Ok(objective(w2)),
    }
}

/// A copy of a split list with the same views in the same order.
fn clone_tasks_vec(v: &Vec<Tasks>) -> (r: Vec<Tasks>)
    ensures
        splits_view(r@) == splits_view(v@),
{
    let mut out: Vec<Tasks> = Vec::new();
    let n = v.len();
    let mut i: usize = 0;
    while i < n
        invariant
            n == v.len(),
            i <= n,
            out@.len() == i,
            forall|j: int| 0 <= j < i ==> (#[trigger] out@[j])@ == v@[j]@,
        decreases n - i,
    {
        out.push(v[i].clone_view());
        i += 1;
    }
    proof {
        assert(splits_view(out@) =~= splits_view(v@));
    }
    out
}

/// Simulate the splits against a copy of the world and report the objective
/// they would reach.
pub fn simulate(world: &World, splits: &Vec<Tasks>) -> (r: Result<
    (Number<One>, Number<Seconds>),
    PlanError,
>)
    requires
        world.wf(),
    ensures
        match sim_objective(world@, splits_view(splits@)) {
            Ok(t) => r matches Ok(p) && p.0@ == t.0 && p.1@ == t.1,
            Err(e) => r matches Err(pe) && pe@ == e,
        },
{
    let mut w = world.clone_view();
    let n = splits.len();
    let mut i: usize = 0;
    proof {
        assert(splits_view(splits@).skip(0) =~= splits_view(splits@));
    }
    while i < n
        invariant
            wf_world(w@),
            n == splits@.len(),
            i <= n,
            run_splits(w@, splits_view(splits@).skip(i as int)) == run_splits(
                world@,
                splits_view(splits@),
            ),
        decreases n - i,
    {
        proof {
            assert(splits_view(splits@).skip(i as int)[0] == splits_view(splits@)[i as int]);
            assert(splits_view(splits@).skip(i as int).drop_first() =~= splits_view(
                splits@,
            ).skip(i as int + 1));
        }
        let res = splits[i].execute(&mut w);
        match res {
            Ok(()) => {},
            Err(e) => {
                return Err(e);
            },
        }
        i += 1;
    }
    proof {
        assert(splits_view(splits@).skip(n as int).len() == 0);
    }
    let minutes = w.time().convert::<One>().div(Number::from_whole(60)).ceil();
    Ok((minutes, w.total_machine_time()))
}

/// An ordered list of task bundles, executed in sequence.
#[derive(Debug)]
pub struct Plan {
    pub splits: Vec<Tasks>,
}

impl View for Plan {
    type V = Seq<TasksV>;

    open spec fn view(&self) -> Seq<TasksV> {
        splits_view(self.splits@)
    }
}

impl Plan {
    /// Execute each bundle of the plan in order, each as one step. A failing
    /// bundle is reported after the bundles before it have been applied; the
    /// failing bundle itself changes nothing.
    pub fn execute(self, world: &mut World) -> (r: Result<(), PlanError>)
        requires
            old(world).wf(),
        ensures
            final(world).wf(),
            match run_splits(old(world)@, self@) {
                Ok(w2) => r is Ok && final(world)@ == w2,
                Err(e) => r matches Err(pe) && pe@ == e,
            },
            r matches Err(pe) ==> exists|i: int|
                {
                    &&& 0 <= i < self@.len()
                    &&& #[trigger] run_splits(old(world)@, self@.take(i)) == Ok::<
                        WorldV,
                        PlanErrorV,
                    >(final(world)@)
                    &&& run_tasks(final(world)@, self@[i]) == Err::<WorldV, PlanErrorV>(pe@)
                },
    {
        let n = self.splits.len();
        let mut i: usize = 0;
        proof {
            assert(self@.skip(0) =~= self@);
            assert(self@.take(0) =~= Seq::<TasksV>::empty());
        }
        while i < n
            invariant
                wf_world(world@),
                n == self.splits@.len(),
                i <= n,
                run_splits(world@, self@.skip(i as int)) == run_splits(old(world)@, self@),
                run_splits(old(world)@, self@.take(i as int)) == Ok::<WorldV, PlanErrorV>(
                    world@,
                ),
            decreases n - i,
        {
            proof {
                assert(self@.skip(i as int)[0] == self@[i as int]);
                assert(self@.skip(i as int).drop_first() =~= self@.skip(i as int + 1));
            }
            let ghost before = world@;
            let res = self.splits[i].execute(world);
            match res {
                Ok(()) => {
                    proof {
                        lemma_run_splits_snoc(old(world)@, self@.take(i as int), self@[i as int]);
                        assert(self@.take(i as int).push(self@[i as int]) =~= self@.take(
                            i as int + 1,
                        ));
                    }
                },
                Err(e) => {
                    proof {
                        assert(world@ == before);
                        assert(run_tasks(world@, self@[i as int]) == Err::<WorldV, PlanErrorV>(
                            e@,
                        ));
                    }
                    return Err(e);
                },
            }
            i += 1;
        }
        proof {
            assert(self@.skip(n as int).len() == 0);
        }
        Ok(())
    }
}

/// Compare two objective values lexicographically.
fn obj_lt_exec(a: &(Number<One>, Number<Seconds>), b: &(Number<One>, Number<Seconds>)) -> (r:
    bool)
    ensures
        r == obj_lt((a.0@, a.1@), (b.0@, b.1@)),
{
    if a.0 < b.0 {
        true
    } else if b.0 < a.0 {
        false
    } else {
        a.1 < b.1
    }
}

/// A bundle that builds exactly one machine the world owns and whose item a
/// recipe can be resolved for: the only kind of bundle the meta-planner
/// inserts.
pub open spec fn build_one_bundle(w: WorldV, t: TasksV) -> bool {
    &&& t.craft == Seq::<(ItemV, int)>::empty()
    &&& t.craft_recipe == Seq::<(Seq<char>, int)>::empty()
    &&& exists|m: Seq<char>|
        {
            &&& #[trigger] t.build == seq![
                (ItemV::Tangible { name: m }, crate::qty::spec_whole(1)),
            ]
            &&& crate::dict::dict_has(w.machines, m)
            &&& find_recipe_model(w, ItemV::Tangible { name: m }) is Ok
        }
}

/// Whether `sp` is `base` with build-one bundles inserted: the base bundles
/// survive in their order, and everything added is a single-machine build.
pub open spec fn splits_extend(w: WorldV, base: Seq<TasksV>, sp: Seq<TasksV>) -> bool
    decreases sp.len(),
{
    if sp.len() == 0 {
        base.len() == 0
    } else {
        ||| (base.len() > 0 && sp[0] == base[0] && splits_extend(
            w,
            base.drop_first(),
            sp.drop_first(),
        ))
        ||| (build_one_bundle(w, sp[0]) && splits_extend(w, base, sp.drop_first()))
    }
}

/// An extension is never shorter than its base.
pub proof fn lemma_extend_len(w: WorldV, base: Seq<TasksV>, sp: Seq<TasksV>)
    requires
        splits_extend(w, base, sp),
    ensures
        sp.len() >= base.len(),
    decreases sp.len(),
{
    if sp.len() > 0 {
        if base.len() > 0 && sp[0] == base[0] && splits_extend(
            w,
            base.drop_first(),
            sp.drop_first(),
        ) {
            lemma_extend_len(w, base.drop_first(), sp.drop_first());
        } else {
            lemma_extend_len(w, base, sp.drop_first());
        }
    }
}

/// Every split list extends itself.
pub proof fn lemma_extend_refl(w: WorldV, base: Seq<TasksV>)
    ensures
        splits_extend(w, base, base),
    decreases base.len(),
{
    if base.len() > 0 {
        lemma_extend_refl(w, base.drop_first());
    }
}

/// Inserting one more build-one bundle keeps a split list an extension.
pub proof fn lemma_extend_insert(w: WorldV, base: Seq<TasksV>, sp: Seq<TasksV>, pos: int, t: TasksV)
    requires
        splits_extend(w, base, sp),
        0 <= pos <= sp.len(),
        build_one_bundle(w, t),
    ensures
        splits_extend(w, base, sp.insert(pos, t)),
    decreases sp.len(),
{
    let sp2 = sp.insert(pos, t);
    sp.insert_ensures(pos, t);
    if pos == 0 {
        assert(sp2[0] == t);
        assert(sp2.drop_first() =~= sp);
    } else {
        assert(sp2[0] == sp[0]);
        assert(sp2.drop_first() =~= sp.drop_first().insert(pos - 1, t));
        if base.len() > 0 && sp[0] == base[0] && splits_extend(
            w,
            base.drop_first(),
            sp.drop_first(),
        ) {
            lemma_extend_insert(w, base.drop_first(), sp.drop_first(), pos - 1, t);
        } else {
            lemma_extend_insert(w, base, sp.drop_first(), pos - 1, t);
        }
    }
}

/// The candidate the meta-planner tries: the splits with one build-one
/// bundle of the world's machine at position `mi` inserted at `pos`.
pub open spec fn insertion_candidate(
    w: WorldV,
    splits: Seq<TasksV>,
    mi: int,
    pos: int,
) -> Seq<TasksV> {
    splits.insert(
        pos,
        tasks_of_build(ItemV::Tangible { name: w.machines[mi].0 }, crate::qty::spec_whole(1)),
    )
}

/// The candidate simulates fine but reaches no strictly smaller objective.
pub open spec fn candidate_not_better(
    w: WorldV,
    splits: Seq<TasksV>,
    mi: int,
    pos: int,
    obj: (int, int),
) -> bool {
    sim_objective(w, insertion_candidate(w, splits, mi, pos)) matches Ok(t) && !obj_lt(t, obj)
}

/// No single build-one insertion of an owned machine with a resolvable
/// recipe, at any position, beats the objective `obj`.
pub open spec fn no_improving_insertion(w: WorldV, splits: Seq<TasksV>, obj: (int, int)) -> bool {
    forall|mi: int, pos: int|
        0 <= mi < w.machines.len() && 0 <= pos <= splits.len() && find_recipe_model(
            w,
            ItemV::Tangible { name: w.machines[mi].0 },
        ) is Ok ==> #[trigger] candidate_not_better(w, splits, mi, pos, obj)
}

/// The meta-planner: a queue of task bundles over a read-only world.
pub struct Planner<'a> {
    pub world: &'a World,
    pub splits: Vec<Tasks>,
}

impl<'a> Planner<'a> {
    /// Queue one more task bundle.
    pub fn add_tasks(&mut self, tasks: Tasks)
        ensures
            final(self).world == old(self).world,
            splits_view(final(self).splits@) == splits_view(old(self).splits@).push(tasks@),
    {
        self.splits.push(tasks);
        proof {
            assert(splits_view(self.splits@) =~= splits_view(old(self).splits@).push(tasks@));
        }
    }

    /// Hill-climb: repeatedly insert a "build one more machine" bundle at the
    /// position that most reduces the simulated objective, until no insertion
    /// strictly improves it. The returned plan extends the queued splits with
    /// such bundles only, never simulates to a larger objective than the
    /// queued splits do, and comes back unchanged exactly when no single
    /// insertion of an owned, resolvable machine strictly improves the
    /// objective; a failure is always witnessed by a split list (the queued
    /// splits or a candidate) whose simulation fails so.
    #[verifier::rlimit(50)]
    pub fn think(&mut self) -> (r: Result<Plan, PlanError>)
        requires
            old(self).world.wf(),
        ensures
            final(self).world == old(self).world,
            match r {
                Ok(p) => {
                    &&& p@ == splits_view(final(self).splits@)
                    &&& splits_extend(
                        old(self).world@,
                        splits_view(old(self).splits@),
                        p@,
                    )
                    &&& (old(self).world@.no_thinking ==> p@ == splits_view(old(self).splits@))
                    &&& (!old(self).world@.no_thinking ==> match sim_objective(
                        old(self).world@,
                        splits_view(old(self).splits@),
                    ) {
                        Ok(t0) => sim_objective(old(self).world@, p@) matches Ok(t1) && obj_le(
                            t1,
                            t0,
                        ) && (p@ == splits_view(old(self).splits@) || obj_lt(t1, t0)) && (p@
                            == splits_view(old(self).splits@) ==> no_improving_insertion(
                            old(self).world@,
                            p@,
                            t0,
                        )),
                        Err(_) => false,
                    })
                },
                Err(pe) => !old(self).world@.no_thinking && exists|sp: Seq<TasksV>|
                    splits_extend(old(self).world@, splits_view(old(self).splits@), sp) && #[trigger] run_splits(
                        old(self).world@,
                        sp,
                    ) == Err::<WorldV, PlanErrorV>(pe@),
            },
    {
        let ghost base = splits_view(old(self).splits@);
        let world = self.world;
        if world.no_thinking() {
            proof {
                lemma_extend_refl(world@, base);
            }
            return Ok(Plan { splits: clone_tasks_vec(&self.splits) });
        }
        let mut best = match simulate(world, &self.splits) {
            Ok(t) => t,
            Err(e) => {
                proof {
                    lemma_extend_refl(world@, base);
                    assert(run_splits(world@, base) == Err::<WorldV, PlanErrorV>(e@));
                }
                return Err(e);
            },
        };
        let ghost orig = (best.0@, best.1@);
        let mut rounds: u64 = THINK_ROUNDS;
        proof {
            lemma_extend_refl(world@, base);
        }
        loop
            invariant
                self.world == old(self).world,
                wf_world(world@),
                world == old(self).world,
                !world@.no_thinking,
                base == splits_view(old(self).splits@),
                splits_extend(world@, base, splits_view(self.splits@)),
                splits_view(self.splits@) == base || obj_lt((best.0@, best.1@), orig),
                rounds == THINK_ROUNDS || splits_view(self.splits@).len() > base.len(),
                sim_objective(world@, splits_view(self.splits@)) == Ok::<(int, int), PlanErrorV>(
                    (best.0@, best.1@),
                ),
                obj_le((best.0@, best.1@), orig),
                sim_objective(world@, base) == Ok::<(int, int), PlanErrorV>(orig),
            decreases rounds,
        {
            if rounds == 0 {
                proof {
                    assert(splits_view(self.splits@) != base);
                }
                return Ok(Plan { splits: clone_tasks_vec(&self.splits) });
            }
            rounds -= 1;
            let mut found: Option<Vec<Tasks>> = None;
            let mut found_obj = best;
            let nm = world.machines().len();
            let mut mi: usize = 0;
            while mi < nm
                invariant
                    self.world == old(self).world,
                    wf_world(world@),
                    world == old(self).world,
                    !world@.no_thinking,
                    nm == world@.machines.len(),
                    mi <= nm,
                    base == splits_view(old(self).splits@),
                    splits_extend(world@, base, splits_view(self.splits@)),
                    splits_view(self.splits@) == base || obj_lt((best.0@, best.1@), orig),
                    sim_objective(world@, splits_view(self.splits@)) == Ok::<
                        (int, int),
                        PlanErrorV,
                    >((best.0@, best.1@)),
                    obj_le((best.0@, best.1@), orig),
                    sim_objective(world@, base) == Ok::<(int, int), PlanErrorV>(orig),
                    found is None ==> forall|mj: int, p: int|
                        0 <= mj < mi && 0 <= p <= self.splits@.len() && find_recipe_model(
                            world@,
                            ItemV::Tangible { name: world@.machines[mj].0 },
                        ) is Ok ==> #[trigger] candidate_not_better(
                            world@,
                            splits_view(self.splits@),
                            mj,
                            p,
                            (best.0@, best.1@),
                        ),
                    match found {
                        Some(c) => sim_objective(world@, splits_view(c@)) == Ok::<
                            (int, int),
                            PlanErrorV,
                        >((found_obj.0@, found_obj.1@)) && obj_lt(
                            (found_obj.0@, found_obj.1@),
                            (best.0@, best.1@),
                        ) && splits_extend(world@, base, splits_view(c@)) && splits_view(c@).len()
                            > base.len(),
                        None => found_obj == best,
                    },
                decreases nm - mi,
            {
                let mname = world.machines().key_at(mi).clone();
                let ghost mnv = mname@;
                proof {
                    assert(world@.machines[mi as int].0 == mnv);
                    assert(crate::dict::dict_has(world@.machines, mnv));
                }
                let item = Item::Tangible { name: mname };
                proof {
                    assert(item@ == (ItemV::Tangible { name: mnv }));
                }
                if find_recipe_for(world, &item).is_ok() {
                    let mut task = Tasks::new();
                    task.build.add(item, Number::from_whole(1));
                    proof {
                        assert(find_recipe_model(world@, ItemV::Tangible { name: mnv }) is Ok);
                        assert(task@.build =~= seq![
                            (ItemV::Tangible { name: mnv }, crate::qty::spec_whole(1)),
                        ]);
                        assert(task@.craft =~= Seq::<(ItemV, int)>::empty());
                        assert(task@.craft_recipe =~= Seq::<(Seq<char>, int)>::empty());
                        assert(build_one_bundle(world@, task@));
                        assert(task@ =~= tasks_of_build(
                            ItemV::Tangible { name: mnv },
                            crate::qty::spec_whole(1),
                        ));
                    }
                    let npos = self.splits.len();
                    let mut pos: usize = 0;
                    while pos <= npos
                        invariant_except_break
                            self.world == old(self).world,
                            wf_world(world@),
                            world == old(self).world,
                            !world@.no_thinking,
                            npos == self.splits@.len(),
                            pos <= npos + 1,
                            base == splits_view(old(self).splits@),
                            build_one_bundle(world@, task@),
                            nm == world@.machines.len(),
                            mi < nm,
                            mnv == world@.machines[mi as int].0,
                            task@ == tasks_of_build(
                                ItemV::Tangible { name: mnv },
                                crate::qty::spec_whole(1),
                            ),
                            found is None ==> forall|mj: int, p: int|
                                0 <= mj < world@.machines.len() && 0 <= p <= self.splits@.len()
                                    && (mj < mi as int || (mj == mi as int && p < pos as int))
                                    && find_recipe_model(
                                    world@,
                                    ItemV::Tangible { name: world@.machines[mj].0 },
                                ) is Ok ==> #[trigger] candidate_not_better(
                                    world@,
                                    splits_view(self.splits@),
                                    mj,
                                    p,
                                    (best.0@, best.1@),
                                ),
                            splits_extend(world@, base, splits_view(self.splits@)),
                            splits_view(self.splits@) == base || obj_lt(
                                (best.0@, best.1@),
                                orig,
                            ),
                            sim_objective(world@, splits_view(self.splits@)) == Ok::<
                                (int, int),
                                PlanErrorV,
                            >((best.0@, best.1@)),
                            obj_le((best.0@, best.1@), orig),
                            sim_objective(world@, base) == Ok::<(int, int), PlanErrorV>(orig),
                            match found {
                                Some(c) => sim_objective(world@, splits_view(c@)) == Ok::<
                                    (int, int),
                                    PlanErrorV,
                                >((found_obj.0@, found_obj.1@)) && obj_lt(
                                    (found_obj.0@, found_obj.1@),
                                    (best.0@, best.1@),
                                ) && splits_extend(world@, base, splits_view(c@)) && splits_view(
                                    c@,
                                ).len() > base.len(),
                                None => found_obj == best,
                            },
                        ensures
                            self.world == old(self).world,
                            !world@.no_thinking,
                            npos == self.splits@.len(),
                            base == splits_view(old(self).splits@),
                            found is None ==> forall|mj: int, p: int|
                                0 <= mj < world@.machines.len() && 0 <= p <= self.splits@.len()
                                    && mj <= mi as int && find_recipe_model(
                                    world@,
                                    ItemV::Tangible { name: world@.machines[mj].0 },
                                ) is Ok ==> #[trigger] candidate_not_better(
                                    world@,
                                    splits_view(self.splits@),
                                    mj,
                                    p,
                                    (best.0@, best.1@),
                                ),
                            splits_extend(world@, base, splits_view(self.splits@)),
                            splits_view(self.splits@) == base || obj_lt(
                                (best.0@, best.1@),
                                orig,
                            ),
                            sim_objective(world@, splits_view(self.splits@)) == Ok::<
                                (int, int),
                                PlanErrorV,
                            >((best.0@, best.1@)),
                            obj_le((best.0@, best.1@), orig),
                            sim_objective(world@, base) == Ok::<(int, int), PlanErrorV>(orig),
                            match found {
                                Some(c) => sim_objective(world@, splits_view(c@)) == Ok::<
                                    (int, int),
                                    PlanErrorV,
                                >((found_obj.0@, found_obj.1@)) && obj_lt(
                                    (found_obj.0@, found_obj.1@),
                                    (best.0@, best.1@),
                                ) && splits_extend(world@, base, splits_view(c@)) && splits_view(
                                    c@,
                                ).len() > base.len(),
                                None => found_obj == best,
                            },
                        decreases npos - pos,
                    {
                        let mut cand = clone_tasks_vec(&self.splits);
                        cand.insert(pos, task.clone_view());
                        proof {
                            splits_view(self.splits@).insert_ensures(pos as int, task@);
                            assert(splits_view(cand@) =~= splits_view(self.splits@).insert(
                                pos as int,
                                task@,
                            ));
                            lemma_extend_insert(
                                world@,
                                base,
                                splits_view(self.splits@),
                                pos as int,
                                task@,
                            );
                        }
                        let res = simulate(world, &cand);
                        match res {
                            Err(e) => {
                                proof {
                                    assert(run_splits(world@, splits_view(cand@)) == Err::<
                                        WorldV,
                                        PlanErrorV,
                                    >(e@));
                                }
                                return Err(e);
                            },
                            Ok(t) => {
                                if obj_lt_exec(&t, &found_obj) {
                                    proof {
                                        assert(obj_lt((t.0@, t.1@), (best.0@, best.1@)));
                                        lemma_extend_len(
                                            world@,
                                            base,
                                            splits_view(self.splits@),
                                        );
                                    }
                                    found = Some(cand);
                                    found_obj = t;
                                } else {
                                    proof {
                                        if found is None {
                                            assert(splits_view(cand@) == insertion_candidate(
                                                world@,
                                                splits_view(self.splits@),
                                                mi as int,
                                                pos as int,
                                            ));
                                            assert(candidate_not_better(
                                                world@,
                                                splits_view(self.splits@),
                                                mi as int,
                                                pos as int,
                                                (best.0@, best.1@),
                                            ));
                                        }
                                    }
                                }
                            },
                        }
                        if pos == npos {
                            break;
                        }
                        pos += 1;
                    }
                }
                mi += 1;
            }
            match found {
                Some(c) => {
                    self.splits = c;
                    best = found_obj;
                },
                None => {
                    proof {
                        assert(no_improving_insertion(
                            world@,
                            splits_view(self.splits@),
                            (best.0@, best.1@),
                        ));
                    }
                    return Ok(Plan { splits: clone_tasks_vec(&self.splits) });
                },
            }
        }
    }
}

impl World {
    /// A fresh planner over this world.
    pub fn planner(&self) -> (r: Planner<'_>)
        ensures
            r.world == self,
            splits_view(r.splits@) =~= Seq::<TasksV>::empty(),
    {
        Planner { world: self, splits: Vec::new() }
    }
}

/// The bundle that crafts `amount` of `item` and nothing else.
pub open spec fn tasks_of_craft(item: ItemV, amount: int) -> TasksV {
    TasksV {
        build: Seq::empty(),
        craft: seq![(item, amount)],
        craft_recipe: Seq::empty(),
    }
}

/// The bundle that builds `amount` of the machine item `item`.
pub open spec fn tasks_of_build(item: ItemV, amount: int) -> TasksV {
    TasksV {
        build: seq![(item, amount)],
        craft: Seq::empty(),
        craft_recipe: Seq::empty(),
    }
}

/// The bundle that fires `amount` rounds of the recipe called `name`.
pub open spec fn tasks_of_recipe(name: Seq<char>, amount: int) -> TasksV {
    TasksV {
        build: Seq::empty(),
        craft: Seq::empty(),
        craft_recipe: seq![(name, amount)],
    }
}

/// What a single-bundle goal guarantees on success: the world moved to a
/// state some split list reaches from the old state; that split list is the
/// bundle itself, possibly with meta-planner build-one insertions around it
/// (exactly the bundle when thinking is off); and the objective reached is
/// never worse than what the verbatim bundle simulates to.
pub open spec fn goal_outcome(pre: WorldV, post: WorldV, t: TasksV) -> bool {
    exists|sp: Seq<TasksV>|
        {
            &&& #[trigger] run_splits(pre, sp) == Ok::<WorldV, PlanErrorV>(post)
            &&& splits_extend(pre, seq![t], sp)
            &&& (pre.no_thinking ==> sp == seq![t])
            &&& (sim_objective(pre, seq![t]) matches Ok(t0) && obj_le(objective(post), t0))
        }
}

/// What a single-bundle goal guarantees on failure: some split list that is
/// the bundle, possibly with meta-planner insertions, fails so when run.
pub open spec fn goal_failure(pre: WorldV, t: TasksV, e: PlanErrorV) -> bool {
    exists|sp: Seq<TasksV>|
        splits_extend(pre, seq![t], sp) && #[trigger] run_splits(pre, sp) == Err::<
            WorldV,
            PlanErrorV,
        >(e)
}

impl World {
    /// Craft `amount` of `item`: queue the goal, think, and execute.
    pub fn craft(&mut self, item: Item, amount: Number<One>) -> (r: Result<(), PlanError>)
        requires
            old(self).wf(),
        ensures
            final(self).wf(),
            r is Ok ==> goal_outcome(old(self)@, final(self)@, tasks_of_craft(item@, amount@)),
            r matches Err(pe) ==> goal_failure(old(self)@, tasks_of_craft(item@, amount@), pe@),
            old(self)@.no_thinking && r is Err ==> final(self)@ == old(self)@,
            old(self)@.no_thinking ==> match run_splits(
                old(self)@,
                seq![tasks_of_craft(item@, amount@)],
            ) {
                Ok(w2) => r is Ok && final(self)@ == w2,
                Err(e) => r matches Err(pe) && pe@ == e,
            },
    {
        let mut tasks = Tasks::new();
        tasks.craft.add(item, amount);
        let ghost goal = tasks_of_craft(item@, amount@);
        proof {
            assert(tasks@ =~= goal);
        }
        let plan = {
            let mut planner = self.planner();
            planner.add_tasks(tasks);
            proof {
                assert(splits_view(planner.splits@) =~= seq![goal]);
            }
            match planner.think() {
                Ok(p) => p,
                Err(e) => {
                    proof {
                        let sp = choose|sp: Seq<TasksV>|
                            splits_extend(old(self)@, seq![goal], sp) && #[trigger] run_splits(
                                old(self)@,
                                sp,
                            ) == Err::<WorldV, PlanErrorV>(e@);
                        assert(goal_failure(old(self)@, goal, e@));
                    }
                    return Err(e);
                },
            }
        };
        let ghost planv = plan@;
        proof {
            if old(self)@.no_thinking {
                assert(planv =~= seq![goal]);
            }
        }
        let res = plan.execute(self);
        match res {
            Ok(()) => {
                proof {
                    assert(run_splits(old(self)@, planv) == Ok::<WorldV, PlanErrorV>(self@));
                    lemma_goal_outcome(old(self)@, self@, goal, planv);
                }
                Ok(())
            },
            Err(e) => {
                proof {
                    assert(run_splits(old(self)@, planv) == Err::<WorldV, PlanErrorV>(e@));
                    assert(goal_failure(old(self)@, goal, e@));
                    if old(self)@.no_thinking {
                        let i = choose|i: int|
                            0 <= i < planv.len() && #[trigger] run_splits(
                                old(self)@,
                                planv.take(i),
                            ) == Ok::<WorldV, PlanErrorV>(self@) && run_tasks(self@, planv[i])
                                == Err::<WorldV, PlanErrorV>(e@);
                        assert(i == 0);
                        assert(planv.take(0) =~= Seq::<TasksV>::empty());
                        assert(self@ == old(self)@);
                    }
                }
                Err(e)
            },
        }
    }

    /// Build `amount` of the machine `item`: craft it and register it. On
    /// success at least `amount` more of the machine is owned.
    pub fn build(&mut self, item: Item, amount: Number<One>) -> (r: Result<(), PlanError>)
        requires
            old(self).wf(),
        ensures
            final(self).wf(),
            r is Ok ==> goal_outcome(old(self)@, final(self)@, tasks_of_build(item@, amount@)),
            r is Ok ==> item@ is Tangible && crate::laws::count_of(
                final(self)@.machines,
                crate::step::item_name(item@),
            ) >= amount@,
            r matches Err(pe) ==> goal_failure(old(self)@, tasks_of_build(item@, amount@), pe@),
            old(self)@.no_thinking && r is Err ==> final(self)@ == old(self)@,
            old(self)@.no_thinking ==> match run_splits(
                old(self)@,
                seq![tasks_of_build(item@, amount@)],
            ) {
                Ok(w2) => r is Ok && final(self)@ == w2,
                Err(e) => r matches Err(pe) && pe@ == e,
            },
    {
        let mut tasks = Tasks::new();
        tasks.build.add(item, amount);
        let ghost goal = tasks_of_build(item@, amount@);
        proof {
            assert(tasks@ =~= goal);
        }
        let plan = {
            let mut planner = self.planner();
            planner.add_tasks(tasks);
            proof {
                assert(splits_view(planner.splits@) =~= seq![goal]);
            }
            match planner.think() {
                Ok(p) => p,
                Err(e) => {
                    proof {
                        let sp = choose|sp: Seq<TasksV>|
                            splits_extend(old(self)@, seq![goal], sp) && #[trigger] run_splits(
                                old(self)@,
                                sp,
                            ) == Err::<WorldV, PlanErrorV>(e@);
                        assert(goal_failure(old(self)@, goal, e@));
                    }
                    return Err(e);
                },
            }
        };
        let ghost planv = plan@;
        proof {
            if old(self)@.no_thinking {
                assert(planv =~= seq![goal]);
            }
        }
        let res = plan.execute(self);
        match res {
            Ok(()) => {
                proof {
                    assert(run_splits(old(self)@, planv) == Ok::<WorldV, PlanErrorV>(self@));
                    lemma_goal_outcome(old(self)@, self@, goal, planv);
                    old(self).lemma_machines_in_range();
                    amount.lemma_in_range();
                    crate::laws::lemma_extend_build_count(
                        old(self)@,
                        old(self)@,
                        planv,
                        item@,
                        amount@,
                    );
                }
                Ok(())
            },
            Err(e) => {
                proof {
                    assert(run_splits(old(self)@, planv) == Err::<WorldV, PlanErrorV>(e@));
                    assert(goal_failure(old(self)@, goal, e@));
                    if old(self)@.no_thinking {
                        let i = choose|i: int|
                            0 <= i < planv.len() && #[trigger] run_splits(
                                old(self)@,
                                planv.take(i),
                            ) == Ok::<WorldV, PlanErrorV>(self@) && run_tasks(self@, planv[i])
                                == Err::<WorldV, PlanErrorV>(e@);
                        assert(i == 0);
                        assert(planv.take(0) =~= Seq::<TasksV>::empty());
                        assert(self@ == old(self)@);
                    }
                }
                Err(e)
            },
        }
    }
}

/// A plan that extends the verbatim bundle, simulates at least as well as it
/// and ran to `post` witnesses the bundle's goal outcome.
proof fn lemma_goal_outcome(pre: WorldV, post: WorldV, t: TasksV, sp: Seq<TasksV>)
    requires
        run_splits(pre, sp) == Ok::<WorldV, PlanErrorV>(post),
        splits_extend(pre, seq![t], sp),
        pre.no_thinking ==> sp == seq![t],
        sim_objective(pre, sp) matches Ok(t1) && (match sim_objective(pre, seq![t]) {
            Ok(t0) => obj_le(t1, t0),
            Err(_) => false,
        }),
    ensures
        goal_outcome(pre, post, t),
{
    assert(sim_objective(pre, sp) == Ok::<(int, int), PlanErrorV>(objective(post)));
}


/// How deep the research prerequisite recursion may go.
pub const RESEARCH_DEPTH: u64 = 64;

/// Researching a technology: a no-op when it is already done; otherwise
/// research every prerequisite, fire its research recipe once (verbatim,
/// without the meta-planner), and record it as done.
pub open spec fn research_model(w: WorldV, name: Seq<char>, fuel: nat) -> Result<
    WorldV,
    PlanErrorV,
>
    decreases fuel, 1int, 0int,
{
    if w.researches.contains(name) {
        Ok(w)
    } else if !crate::dict::dict_has(w.graph.researches, name) {
        Err(PlanErrorV::UnknownResearch { name })
    } else if fuel == 0 {
        Err(PlanErrorV::DepthLimit)
    } else {
        let rsch = w.graph.researches[crate::dict::dict_idx(w.graph.researches, name)].1;
        match research_deps(w, rsch.dependencies, fuel) {
            Err(e) => Err(e),
            Ok(w1) => match run_tasks(w1, tasks_of_recipe(rsch.recipe, spec_whole(1))) {
                Err(e) => Err(e),
                Ok(w2) => Ok(
                    WorldV {
                        researches: if w2.researches.contains(name) {
                            w2.researches
                        } else {
                            w2.researches.push(name)
                        },
                        ..w2
                    },
                ),
            },
        }
    }
}

/// Research a list of prerequisites in order, against the evolving world.
pub open spec fn research_deps(w: WorldV, deps: Seq<Seq<char>>, fuel: nat) -> Result<
    WorldV,
    PlanErrorV,
>
    decreases fuel, 0int, deps.len(),
{
    if deps.len() == 0 {
        Ok(w)
    } else if fuel == 0 {
        Err(PlanErrorV::DepthLimit)
    } else {
        match research_model(w, deps[0], (fuel - 1) as nat) {
            Err(e) => Err(e),
            Ok(w1) => research_deps(w1, deps.drop_first(), fuel),
        }
    }
}

/// The views of a list of names.
pub open spec fn names_view(s: Seq<String>) -> Seq<Seq<char>> {
    s.map_values(|n: String| n@)
}

impl World {
    /// Research a technology and, first, all its prerequisites. A technology
    /// the graph does not know leaves the world untouched.
    pub fn research(&mut self, name: &str) -> (r: Result<(), PlanError>)
        requires
            old(self).wf(),
        ensures
            final(self).wf(),
            match research_model(old(self)@, name@, RESEARCH_DEPTH as nat) {
                Ok(w2) => r is Ok && final(self)@ == w2,
                Err(e) => r matches Err(pe) && pe@ == e,
            },
            !crate::dict::dict_has(old(self)@.graph.researches, name@) ==> final(self)@ == old(
                self,
            )@,
    {
        self.research_depth(name, RESEARCH_DEPTH)
    }

    /// Research a technology, recursing at most `fuel` levels deep into its
    /// prerequisites.
    fn research_depth(&mut self, name: &str, fuel: u64) -> (r: Result<(), PlanError>)
        requires
            old(self).wf(),
        ensures
            final(self).wf(),
            match research_model(old(self)@, name@, fuel as nat) {
                Ok(w2) => r is Ok && final(self)@ == w2,
                Err(e) => r matches Err(pe) && pe@ == e,
            },
            !crate::dict::dict_has(old(self)@.graph.researches, name@) ==> final(self)@ == old(
                self,
            )@,
        decreases fuel, 1int, 0int,
    {
        if self.researched(name) {
            return Ok(());
        }
        let (deps, recipe) = match self.graph().researches.get(name) {
            None => {
                return Err(
                    PlanError::UnknownResearch { name: String::from_str(name) },
                );
            },
            Some(rsch) => (crate::graph::clone_names(&rsch.dependencies), rsch.recipe.clone()),
        };
        if fuel == 0 {
            return Err(PlanError::DepthLimit);
        }
        let ghost w0 = self@;
        let ghost depsv = names_view(deps@);
        proof {
            assert(depsv =~= w0.graph.researches[crate::dict::dict_idx(
                w0.graph.researches,
                name@,
            )].1.dependencies);
            assert(depsv.skip(0) =~= depsv);
        }
        let nd = deps.len();
        let mut i: usize = 0;
        while i < nd
            invariant
                self.wf(),
                nd == deps@.len(),
                i <= nd,
                fuel > 0,
                w0 == old(self)@,
                !w0.researches.contains(name@),
                crate::dict::dict_has(w0.graph.researches, name@),
                depsv == w0.graph.researches[crate::dict::dict_idx(
                    w0.graph.researches,
                    name@,
                )].1.dependencies,
                depsv == names_view(deps@),
                research_deps(self@, depsv.skip(i as int), fuel as nat) == research_deps(
                    w0,
                    depsv,
                    fuel as nat,
                ),
            decreases nd - i,
        {
            proof {
                assert(depsv.skip(i as int)[0] == depsv[i as int]);
                assert(depsv.skip(i as int).drop_first() =~= depsv.skip(i as int + 1));
            }
            let ghost before = self@;
            let res = self.research_depth(deps[i].as_str(), fuel - 1);
            match res {
                Ok(()) => {},
                Err(e) => {
                    proof {
                        assert(research_deps(before, depsv.skip(i as int), fuel as nat)
                            == Err::<WorldV, PlanErrorV>(e@));
                        assert(research_model(w0, name@, fuel as nat) == Err::<
                            WorldV,
                            PlanErrorV,
                        >(e@));
                    }
                    return Err(e);
                },
            }
            i += 1;
        }
        proof {
            assert(depsv.skip(nd as int).len() == 0);
        }
        let ghost w1 = self@;
        let mut tasks = Tasks::new();
        tasks.craft_recipe.set(recipe.as_str(), Number::from_whole(1));
        proof {
            assert(tasks@ =~= tasks_of_recipe(recipe@, spec_whole(1)));
        }
        let res = tasks.execute(self);
        match res {
            Ok(()) => {},
            Err(e) => {
                return Err(e);
            },
        }
        self.mark_researched(name);
        proof {
            assert(research_model(w0, name@, fuel as nat) matches Ok(w2) && self@ =~= w2);
        }
        Ok(())
    }
}

/// Researching a technology twice leaves the world exactly as the first
/// research left it: a successful research marks the technology done, and
/// researching a done technology changes nothing.
pub proof fn lemma_research_idempotent(w: WorldV, name: Seq<char>, f1: nat, f2: nat)
    requires
        research_model(w, name, f1) is Ok,
    ensures
        research_model(w, name, f1) matches Ok(w2) && research_model(w2, name, f2) == Ok::<
            WorldV,
            PlanErrorV,
        >(w2),
{
    let w2 = research_model(w, name, f1)->Ok_0;
    if w.researches.contains(name) {
        assert(w2 == w);
    } else {
        let rsch = w.graph.researches[crate::dict::dict_idx(w.graph.researches, name)].1;
        let w1 = research_deps(w, rsch.dependencies, f1)->Ok_0;
        let wr = run_tasks(w1, tasks_of_recipe(rsch.recipe, spec_whole(1)))->Ok_0;
        if wr.researches.contains(name) {
            assert(w2.researches.contains(name));
        } else {
            assert(w2.researches == wr.researches.push(name));
            assert(w2.researches[w2.researches.len() - 1] == name);
            assert(w2.researches.contains(name));
        }
    }
}

} // verus!
