//! The mutable simulation state: which machines exist, which researches are
//! done, the preferred fuel per category, elapsed time, and rolling counters.

use vstd::prelude::*;

use crate::dict::Dict;
use crate::dict::NameSet;
use crate::dict::ViewClone;
use crate::dict::dict_has;
use crate::dict::dict_keys_unique;
use crate::dict::dict_remove;
use crate::dict::dict_set;
use crate::graph::CHARACTER_CRAFTING;
use crate::graph::CHARACTER_MINING;
use crate::graph::FREE_STUFF;
use crate::graph::Graph;
use crate::graph::GraphV;
use crate::graph::Item;
use crate::graph::ItemV;
use crate::graph::wf_graph;
use crate::qty::Number;
use crate::qty::One;
use crate::qty::Seconds;

verus! {

/// The mathematical shape of a `World`.
#[verifier::ext_equal]
pub struct WorldV {
    pub graph: GraphV,
    pub no_thinking: bool,
    pub researches: Seq<Seq<char>>,
    pub preferred_fuel: Seq<(Seq<char>, ItemV)>,
    pub machines: Seq<(Seq<char>, int)>,
    pub time: int,
    pub total_crafts: Seq<(Seq<char>, int)>,
    pub total_machine_time: int,
}

/// World well-formedness: a well-formed graph, unique keys in every table,
/// every owned machine a machine of the graph, and every preferred fuel a
/// tangible item.
pub open spec fn wf_world(w: WorldV) -> bool {
    &&& wf_graph(w.graph)
    &&& dict_keys_unique(w.machines)
    &&& forall|i: int|
        0 <= i < w.machines.len() ==> dict_has(w.graph.machines, (#[trigger] w.machines[i]).0)
    &&& dict_keys_unique(w.total_crafts)
    &&& dict_keys_unique(w.preferred_fuel)
    &&& forall|i: int|
        0 <= i < w.preferred_fuel.len() ==> (#[trigger] w.preferred_fuel[i]).1 is Tangible
    &&& forall|i: int, j: int| 0 <= i < j < w.researches.len() ==> w.researches[i] != w.researches[j]
}

/// The simulation state.
pub struct World {
    pub(crate) graph: Graph,
    pub(crate) no_thinking: bool,
    pub(crate) researches: NameSet,
    pub(crate) preferred_fuel: Dict<Item>,
    pub(crate) machines: Dict<Number<One>>,
    pub(crate) time: Number<Seconds>,
    pub(crate) total_crafts: Dict<Number<One>>,
    pub(crate) total_machine_time: Number<Seconds>,
}

impl View for World {
    type V = WorldV;

    closed spec fn view(&self) -> WorldV {
        WorldV {
            graph: self.graph@,
            no_thinking: self.no_thinking,
            researches: self.researches@,
            preferred_fuel: self.preferred_fuel@,
            machines: self.machines@,
            time: self.time@,
            total_crafts: self.total_crafts@,
            total_machine_time: self.total_machine_time@,
        }
    }
}

impl ViewClone for World {
    fn clone_view(&self) -> (r: Self) {
        World {
            graph: self.graph.clone_view(),
            no_thinking: self.no_thinking,
            researches: self.researches.clone_view(),
            preferred_fuel: self.preferred_fuel.clone_view(),
            machines: self.machines.clone_view(),
            time: self.time,
            total_crafts: self.total_crafts.clone_view(),
            total_machine_time: self.total_machine_time,
        }
    }
}

impl World {
    /// The state is well-formed.
    pub open spec fn wf(&self) -> bool {
        wf_world(self@)
    }

    /// A fresh world over a normalized graph, owning one of each
    /// pseudo-machine, with no research done and the clock at zero.
    pub fn from_graph(graph: Graph) -> (r: World)
        requires
            wf_graph(graph@),
            dict_has(graph@.machines, CHARACTER_MINING@),
            dict_has(graph@.machines, CHARACTER_CRAFTING@),
            dict_has(graph@.machines, FREE_STUFF@),
        ensures
            r.wf(),
            r@.graph == graph@,
            r@.no_thinking == true,
            r@.researches =~= Seq::<Seq<char>>::empty(),
            r@.preferred_fuel =~= Seq::<(Seq<char>, ItemV)>::empty(),
            r@.machines =~= seq![
                (CHARACTER_MINING@, crate::qty::spec_whole(1)),
                (CHARACTER_CRAFTING@, crate::qty::spec_whole(1)),
                (FREE_STUFF@, crate::qty::spec_whole(1)),
            ],
            r@.time == 0,
            r@.total_crafts =~= Seq::<(Seq<char>, int)>::empty(),
            r@.total_machine_time == 0,
    {
        proof {
            reveal_strlit("character mining");
            reveal_strlit("character crafting");
            reveal_strlit("free");
            assert(CHARACTER_MINING@.len() == 16);
            assert(CHARACTER_CRAFTING@.len() == 18);
            assert(FREE_STUFF@.len() == 4);
        }
        let mut machines: Dict<Number<One>> = Dict::new();
        machines.set(CHARACTER_MINING, Number::from_whole(1));
        machines.set(CHARACTER_CRAFTING, Number::from_whole(1));
        machines.set(FREE_STUFF, Number::from_whole(1));
        proof {
            assert(machines@ =~= seq![
                (CHARACTER_MINING@, crate::qty::spec_whole(1)),
                (CHARACTER_CRAFTING@, crate::qty::spec_whole(1)),
                (FREE_STUFF@, crate::qty::spec_whole(1)),
            ]);
        }
        World {
            graph,
            no_thinking: true,
            researches: NameSet::new(),
            preferred_fuel: Dict::new(),
            machines,
            time: Number::zero(),
            total_crafts: Dict::new(),
            total_machine_time: Number::zero(),
        }
    }

    /// Set the preferred burner fuel for a fuel category.
    pub fn prefer_fuel(&mut self, category: &str, fuel: Item)
        requires
            old(self).wf(),
            fuel@ is Tangible,
        ensures
            final(self).wf(),
            final(self)@ == (WorldV {
                preferred_fuel: dict_set(old(self)@.preferred_fuel, category@, fuel@),
                ..old(self)@
            }),
    {
        self.preferred_fuel.set(category, fuel);
    }

    /// Add `amount` machines to the world without cost. The machine must be
    /// known to the graph.
    pub fn place(&mut self, machine: &str, amount: Number<One>) -> (r: Result<(), ()>)
        requires
            old(self).wf(),
        ensures
            final(self).wf(),
            match r {
                Ok(()) => dict_has(old(self)@.graph.machines, machine@) && final(self)@ == (
                WorldV {
                    machines: crate::dict::dict_add(old(self)@.machines, machine@, amount@),
                    ..old(self)@
                }),
                Err(()) => !dict_has(old(self)@.graph.machines, machine@) && final(self)@ == old(
                    self,
                )@,
            },
    {
        if self.graph.machines.contains(machine) {
            self.machines.add(machine, amount);
            Ok(())
        } else {
            Err(())
        }
    }

    /// Remove all copies of a machine from the world.
    pub fn destroy_all(&mut self, machine: &Item)
        requires
            old(self).wf(),
            machine@ is Tangible,
        ensures
            final(self).wf(),
            final(self)@ == (WorldV {
                machines: dict_remove(
                    old(self)@.machines,
                    match machine@ {
                        ItemV::Tangible { name } => name,
                        ItemV::Energy { .. } => Seq::empty(),
                    },
                ),
                ..old(self)@
            }),
    {
        let name = machine.name();
        self.machines.remove(name.as_str());
    }

    /// Forget a research.
    pub fn unresearch(&mut self, research: &str)
        requires
            old(self).wf(),
        ensures
            final(self).wf(),
            !final(self)@.researches.contains(research@),
            final(self)@ == (WorldV { researches: final(self)@.researches, ..old(self)@ }),
            !old(self)@.researches.contains(research@) ==> final(self)@ == old(self)@,
    {
        proof {
            assert(wf_world(old(self)@));
            assert(old(self)@.researches == self.researches@);
            assert forall|i: int, j: int|
                0 <= i < j < self.researches@.len() implies self.researches@[i]
                != self.researches@[j] by {
                assert(old(self)@.researches[i] != old(self)@.researches[j]);
            }
            assert(self.researches.wf());
        }
        self.researches.remove(research);
    }

    /// Zero the craft and machine-time counters, keeping the clock and the
    /// owned machines.
    pub fn reset_counts(&mut self)
        requires
            old(self).wf(),
        ensures
            final(self).wf(),
            final(self)@ == (WorldV {
                total_crafts: Seq::<(Seq<char>, int)>::empty(),
                total_machine_time: 0,
                ..old(self)@
            }),
    {
        self.total_machine_time = Number::zero();
        self.total_crafts.clear();
        proof {
            assert(self@.total_crafts =~= Seq::<(Seq<char>, int)>::empty());
            assert(self@ =~= WorldV {
                total_crafts: Seq::<(Seq<char>, int)>::empty(),
                total_machine_time: 0,
                ..old(self)@
            });
        }
    }

    /// Record a technology as researched.
    pub(crate) fn mark_researched(&mut self, name: &str)
        requires
            old(self).wf(),
        ensures
            final(self).wf(),
            final(self)@ == (WorldV {
                researches: if old(self)@.researches.contains(name@) {
                    old(self)@.researches
                } else {
                    old(self)@.researches.push(name@)
                },
                ..old(self)@
            }),
            final(self)@.researches.contains(name@),
    {
        proof {
            assert(wf_world(old(self)@));
            assert forall|i: int, j: int|
                0 <= i < j < self.researches@.len() implies self.researches@[i]
                != self.researches@[j] by {
                assert(old(self)@.researches[i] != old(self)@.researches[j]);
            }
            assert(self.researches.wf());
        }
        self.researches.insert(name);
        proof {
            assert(self@ =~= (WorldV {
                researches: if old(self)@.researches.contains(name@) {
                    old(self)@.researches
                } else {
                    old(self)@.researches.push(name@)
                },
                ..old(self)@
            }));
        }
    }

    /// Whether a technology has been researched.
    pub fn researched(&self, research: &str) -> (r: bool)
        ensures
            r == self@.researches.contains(research@),
    {
        self.researches.contains(research)
    }

    /// The elapsed wall-clock time.
    pub fn time(&self) -> (r: Number<Seconds>)
        ensures
            r@ == self@.time,
    {
        self.time
    }

    /// The accumulated machine-seconds.
    pub fn total_machine_time(&self) -> (r: Number<Seconds>)
        ensures
            r@ == self@.total_machine_time,
    {
        self.total_machine_time
    }

    /// Add `amount` to the rolling craft counter of `name`.
    pub(crate) fn add_total_craft(&mut self, name: &str, amount: Number<One>)
        requires
            old(self).wf(),
        ensures
            final(self).wf(),
            final(self)@ == (WorldV {
                total_crafts: crate::dict::dict_add(old(self)@.total_crafts, name@, amount@),
                ..old(self)@
            }),
    {
        self.total_crafts.add(name, amount);
        proof {
            assert(self@ =~= (WorldV {
                total_crafts: crate::dict::dict_add(old(self)@.total_crafts, name@, amount@),
                ..old(self)@
            }));
        }
    }

    /// Materialize `amount` freshly built machines called `name`.
    pub(crate) fn add_machine_built(&mut self, name: &str, amount: Number<One>)
        requires
            old(self).wf(),
            dict_has(old(self)@.graph.machines, name@),
        ensures
            final(self).wf(),
            final(self)@ == (WorldV {
                machines: crate::dict::dict_add(old(self)@.machines, name@, amount@),
                ..old(self)@
            }),
    {
        let ghost prev = self@.machines;
        self.machines.add(name, amount);
        proof {
            assert(self@ =~= (WorldV {
                machines: crate::dict::dict_add(old(self)@.machines, name@, amount@),
                ..old(self)@
            }));
            assert forall|j: int| 0 <= j < self@.machines.len() implies dict_has(
                self@.graph.machines,
                (#[trigger] self@.machines[j]).0,
            ) by {
                if crate::dict::dict_has(prev, name@) {
                    let idx = crate::dict::dict_idx(prev, name@);
                    if j == idx {
                        assert(self@.machines[j].0 == name@);
                    } else {
                        assert(self@.machines[j] == prev[j]);
                    }
                } else {
                    if j < prev.len() {
                        assert(self@.machines[j] == prev[j]);
                    } else {
                        assert(self@.machines[j].0 == name@);
                    }
                }
            }
        }
    }

    /// Advance the clocks: all machine-seconds count toward the total, the
    /// wall clock advances by the slowest machine group.
    pub(crate) fn advance_clocks(&mut self, total: Number<Seconds>, largest: Number<Seconds>)
        requires
            old(self).wf(),
        ensures
            final(self).wf(),
            final(self)@ == (WorldV {
                total_machine_time: crate::qty::spec_add(old(self)@.total_machine_time, total@),
                time: crate::qty::spec_add(old(self)@.time, largest@),
                ..old(self)@
            }),
    {
        self.total_machine_time = self.total_machine_time.add(total);
        self.time = self.time.add(largest);
        proof {
            assert(self@ =~= (WorldV {
                total_machine_time: crate::qty::spec_add(old(self)@.total_machine_time, total@),
                time: crate::qty::spec_add(old(self)@.time, largest@),
                ..old(self)@
            }));
        }
    }

    /// The owned-machine counts lie in the representable range.
    pub proof fn lemma_machines_in_range(&self)
        ensures
            forall|i: int|
                0 <= i < self@.machines.len() ==> 0 <= (#[trigger] self@.machines[i]).1
                    <= u64::MAX,
    {
        self.machines.lemma_values_in_range();
    }

    /// The normalized graph.
    pub fn graph(&self) -> (r: &Graph)
        ensures
            r@ == self@.graph,
    {
        &self.graph
    }

    /// Whether `think` applies queued tasks verbatim.
    pub fn no_thinking(&self) -> (r: bool)
        ensures
            r == self@.no_thinking,
    {
        self.no_thinking
    }

    /// Choose whether `think` hill-climbs or applies tasks verbatim.
    pub fn set_no_thinking(&mut self, v: bool)
        requires
            old(self).wf(),
        ensures
            final(self).wf(),
            final(self)@ == (WorldV { no_thinking: v, ..old(self)@ }),
    {
        self.no_thinking = v;
    }

    /// The owned machines.
    pub fn machines(&self) -> (r: &Dict<Number<One>>)
        ensures
            r@ == self@.machines,
    {
        &self.machines
    }

    /// The rolling per-recipe craft counter.
    pub fn total_crafts(&self) -> (r: &Dict<Number<One>>)
        ensures
            r@ == self@.total_crafts,
    {
        &self.total_crafts
    }

    /// The preferred fuel per category.
    pub fn preferred_fuel(&self) -> (r: &Dict<Item>)
        ensures
            r@ == self@.preferred_fuel,
    {
        &self.preferred_fuel
    }
}

} // verus!
