use vstd::prelude::*;

use crate::ant::Ant;
use crate::node::Node;
use crate::world::World;

verus! {

/// A colony destruction: the colony id and the two agents held responsible.
#[derive(Clone, Copy, Debug, PartialEq, Eq, Structural)]
pub struct DestructionEvent {
    pub colony: u32,
    pub first: u32,
    pub second: u32,
}

/// Number of ants among the first `k` that are alive and stand at colony `n`.
pub open spec fn count_alive_at_upto(ants: Seq<Ant>, n: int, k: int) -> nat
    decreases k,
{
    if k <= 0 {
        0
    } else {
        count_alive_at_upto(ants, n, k - 1) + if ants[k - 1].alive && ants[k - 1].pos == n {
            1nat
        } else {
            0nat
        }
    }
}

/// Number of ants that are alive and stand at colony `n`.
pub open spec fn count_alive_at(ants: Seq<Ant>, n: int) -> nat {
    count_alive_at_upto(ants, n, ants.len() as int)
}

/// Among the first `k` entries of the active list, the number of still-alive
/// ants whose buffered destination is colony `n`.
pub open spec fn count_arrivals_upto(
    ants: Seq<Ant>,
    active: Seq<usize>,
    next: Seq<u32>,
    n: int,
    k: int,
) -> nat
    decreases k,
{
    if k <= 0 {
        0
    } else {
        count_arrivals_upto(ants, active, next, n, k - 1) + if ants[active[k - 1] as int].alive
            && next[active[k - 1] as int] == n {
            1nat
        } else {
            0nat
        }
    }
}

/// Over the whole active list, the number of still-alive ants whose buffered
/// destination is colony `n`.
pub open spec fn count_arrivals(ants: Seq<Ant>, active: Seq<usize>, next: Seq<u32>, n: int) -> nat {
    count_arrivals_upto(ants, active, next, n, active.len() as int)
}

/// Two distinct alive ants stand at colony `n` and carry the ids `first`
/// and `second`, in index order.
pub open spec fn alive_pair_at(ants: Seq<Ant>, n: int, first: u32, second: u32) -> bool {
    exists|i1: int, i2: int| 0 <= i1 < i2 < ants.len()
        && ants[i1].alive && ants[i1].pos == n && ants[i1].id == first
        && ants[i2].alive && ants[i2].pos == n && ants[i2].id == second
}

/// Some still-alive active ant with id `id` has colony `n` as its buffered
/// destination this tick.
pub open spec fn arrival_with_id(
    ants: Seq<Ant>,
    active: Seq<usize>,
    next: Seq<u32>,
    n: int,
    id: u32,
) -> bool {
    exists|k: int| 0 <= k < active.len() && ants[active[k] as int].alive
        && next[active[k] as int] == n && ants[active[k] as int].id == id
}

/// `m` occurs among the first `t` entries of `s`.
pub open spec fn appears_before(s: Seq<usize>, m: int, t: int) -> bool {
    exists|idx: int| 0 <= idx < t && s[idx] == m
}

/// The node sequences agree on everything except, possibly, liveness:
/// destruction never changes a colony's name or exits.
pub open spec fn nodes_frame(pre: Seq<Node>, post: Seq<Node>) -> bool {
    &&& post.len() == pre.len()
    &&& forall|i: int| 0 <= i < pre.len() ==> (#[trigger] post[i]).name_idx == pre[i].name_idx
            && post[i].neighbors == pre[i].neighbors
}

/// `post` extends `pre` by appending only.
pub open spec fn events_extended(pre: Seq<DestructionEvent>, post: Seq<DestructionEvent>) -> bool {
    &&& pre.len() <= post.len()
    &&& forall|j: int| 0 <= j < pre.len() ==> (#[trigger] post[j]) == pre[j]
}

/// Collision detector: per-colony occupancy tables for the current tick,
/// lazily reset through a generation stamp, layered over the persistent
/// stationary stock.
pub struct CollisionDetector {
    /// Per-node occupancy count for the current generation.
    pub occupancy_count: Vec<u32>,
    /// First ant to occupy each node in the current generation.
    pub occupancy_first: Vec<u32>,
    /// Second ant to occupy each node in the current generation.
    pub occupancy_second: Vec<u32>,
    /// Generation stamp per node; a stale stamp marks the slot as logically reset.
    pub generation: Vec<u64>,
    /// Current generation counter.
    pub current_generation: u64,
    /// Stationary (trapped or move-exhausted) occupants per node.
    pub base_occupancy: Vec<u32>,
    /// First stationary ant per node.
    pub base_first: Vec<u32>,
    /// Second stationary ant per node.
    pub base_second: Vec<u32>,
    /// Nodes touched by arrivals in the current generation.
    pub touched_nodes: Vec<usize>,
    /// Nodes that gained a stationary ant this tick.
    pub base_touched: Vec<usize>,
}

impl CollisionDetector {
    /// All tables sized to the node count, and no stamp ahead of the
    /// current generation.
    pub open spec fn wf(self, node_count: int) -> bool {
        &&& self.occupancy_count@.len() == node_count
        &&& self.occupancy_first@.len() == node_count
        &&& self.occupancy_second@.len() == node_count
        &&& self.generation@.len() == node_count
        &&& self.base_occupancy@.len() == node_count
        &&& self.base_first@.len() == node_count
        &&& self.base_second@.len() == node_count
        &&& forall|i: int| 0 <= i < node_count
                ==> (#[trigger] self.generation@[i]) <= self.current_generation
        &&& forall|k: int| 0 <= k < self.touched_nodes@.len()
                ==> (#[trigger] self.touched_nodes@[k]) < node_count
        &&& forall|k: int| 0 <= k < self.base_touched@.len()
                ==> (#[trigger] self.base_touched@[k]) < node_count
    }

    /// Colony `n` gained a stationary ant this tick.
    pub open spec fn base_touched_contains(self, n: int) -> bool {
        appears_before(self.base_touched@, n, self.base_touched@.len() as int)
    }

    /// The combined occupancy of colony `m` this tick: its stationary stock
    /// seeded into the scratch slot, plus this tick's arrivals.
    pub open spec fn combined_occupancy(
        self,
        ants: Seq<Ant>,
        active: Seq<usize>,
        next: Seq<u32>,
        m: int,
    ) -> int {
        self.base_occupancy@[m] + count_arrivals(ants, active, next, m)
    }

    /// Colony `m` must fall this tick: it is alive, at least one arrival
    /// reaches it, and stock plus arrivals reach two.
    pub open spec fn tick_collision(
        self,
        world: World,
        ants: Seq<Ant>,
        active: Seq<usize>,
        next: Seq<u32>,
        m: int,
    ) -> bool {
        &&& world.nodes@[m].alive
        &&& count_arrivals(ants, active, next, m) > 0
        &&& self.combined_occupancy(ants, active, next, m) >= 2
    }

    /// Colony `m` must fall in the stationary pass: it is alive, it gained a
    /// stationary ant this tick, and its stock stands at two or more.
    pub open spec fn stationary_collision(self, world: World, m: int) -> bool {
        &&& world.nodes@[m].alive
        &&& self.base_touched_contains(m)
        &&& self.base_occupancy@[m] >= 2
    }

    /// Create a new collision detector for a world with the given number of nodes.
    pub fn new(node_count: usize) -> (r: CollisionDetector)
        ensures
            r.wf(node_count as int),
            r.current_generation == 1,
            forall|i: int| 0 <= i < node_count ==> (#[trigger] r.base_occupancy@[i]) == 0,
            forall|i: int| 0 <= i < node_count ==> (#[trigger] r.base_first@[i]) == u32::MAX,
            forall|i: int| 0 <= i < node_count ==> (#[trigger] r.base_second@[i]) == u32::MAX,
            forall|i: int| 0 <= i < node_count ==> (#[trigger] r.occupancy_count@[i]) == 0,
            forall|i: int| 0 <= i < node_count ==> (#[trigger] r.occupancy_first@[i]) == u32::MAX,
            forall|i: int| 0 <= i < node_count ==> (#[trigger] r.occupancy_second@[i]) == u32::MAX,
            forall|i: int| 0 <= i < node_count ==> (#[trigger] r.generation@[i]) == 0,
            r.touched_nodes@.len() == 0,
            r.base_touched@.len() == 0,
    {
        CollisionDetector {
            occupancy_count: vec![0u32; node_count],
            occupancy_first: vec![u32::MAX; node_count],
            occupancy_second: vec![u32::MAX; node_count],
            generation: vec![0u64; node_count],
            current_generation: 1,
            base_occupancy: vec![0u32; node_count],
            base_first: vec![u32::MAX; node_count],
            base_second: vec![u32::MAX; node_count],
            touched_nodes: Vec::new(),
            base_touched: Vec::new(),
        }
    }

    /// One-time pass before any tick runs: occupancy is computed purely
    /// from each alive ant's initial position, every colony holding two or
    /// more ants is destroyed, and every ant standing at a destroyed colony
    /// is marked neither alive nor trapped.
    pub fn handle_initial_collisions(
        &mut self,
        world: &mut World,
        ants: &mut Vec<Ant>,
        events: &mut Vec<DestructionEvent>,
    )
        requires
            old(self).wf(old(world).nodes@.len() as int),
            old(world).wf(),
            forall|i: int| 0 <= i < old(ants)@.len()
                ==> (#[trigger] old(ants)@[i]).pos < old(world).nodes@.len(),
            old(ants)@.len() <= u32::MAX,
        ensures
            final(self).wf(final(world).nodes@.len() as int),
            final(self).base_occupancy == old(self).base_occupancy,
            final(self).base_first == old(self).base_first,
            final(self).base_second == old(self).base_second,
            final(self).base_touched == old(self).base_touched,
            final(self).generation == old(self).generation,
            final(self).current_generation == old(self).current_generation,
            final(world).names == old(world).names,
            nodes_frame(old(world).nodes@, final(world).nodes@),
            forall|n: int| 0 <= n < old(world).nodes@.len()
                ==> (#[trigger] final(world).nodes@[n]).alive
                    == (old(world).nodes@[n].alive && count_alive_at(old(ants)@, n) < 2),
            final(ants)@.len() == old(ants)@.len(),
            forall|i: int| 0 <= i < old(ants)@.len() ==> {
                let was = old(ants)@[i];
                (#[trigger] final(ants)@[i]) == if old(world).nodes@[was.pos as int].alive
                    && count_alive_at(old(ants)@, was.pos as int) >= 2 {
                    Ant { alive: false, trapped: false, ..was }
                } else {
                    was
                }
            },
            events_extended(old(events)@, final(events)@),
            forall|j: int| old(events)@.len() <= j < final(events)@.len() ==> {
                let e = #[trigger] final(events)@[j];
                &&& e.colony < old(world).nodes@.len()
                &&& old(world).nodes@[e.colony as int].alive
                &&& count_alive_at(old(ants)@, e.colony as int) >= 2
                &&& alive_pair_at(old(ants)@, e.colony as int, e.first, e.second)
            },
            forall|n: int| 0 <= n < old(world).nodes@.len() && old(world).nodes@[n].alive
                && count_alive_at(old(ants)@, n) >= 2
                ==> exists|j: int| old(events)@.len() <= j < final(events)@.len()
                    && (#[trigger] final(events)@[j]).colony == n,
            forall|j1: int, j2: int| old(events)@.len() <= j1 < j2 < final(events)@.len()
                ==> (#[trigger] final(events)@[j1]).colony
                    != (#[trigger] final(events)@[j2]).colony,
    {
        let node_count = world.nodes.len();
        let mut destroyed: Vec<bool> = vec![false; node_count];

        // Reset the tick-scratch arrays: the time-zero pass does not use the
        // generation stamp, there is no stationary stock yet.
        let mut i: usize = 0;
        while i < node_count
            invariant
                i <= node_count,
                self.occupancy_count@.len() == node_count,
                self.occupancy_first@.len() == node_count,
                self.occupancy_second@.len() == node_count,
                forall|m: int| 0 <= m < i ==> (#[trigger] self.occupancy_count@[m]) == 0,
                self.base_occupancy == old(self).base_occupancy,
                self.base_first == old(self).base_first,
                self.base_second == old(self).base_second,
                self.base_touched == old(self).base_touched,
                self.generation == old(self).generation,
                self.current_generation == old(self).current_generation,
                self.touched_nodes == old(self).touched_nodes,
            decreases node_count - i,
        {
            self.occupancy_count[i] = 0;
            self.occupancy_first[i] = u32::MAX;
            self.occupancy_second[i] = u32::MAX;
            i = i + 1;
        }

        // Count ant occupancy per colony.
        let ant_count = ants.len();
        let mut j: usize = 0;
        while j < ant_count
            invariant
                j <= ant_count,
                ant_count == ants@.len(),
                ants@.len() <= u32::MAX,
                node_count == old(world).nodes@.len(),
                *world == *old(world),
                *ants == *old(ants),
                self.occupancy_count@.len() == node_count,
                self.occupancy_first@.len() == node_count,
                self.occupancy_second@.len() == node_count,
                forall|i2: int| 0 <= i2 < ants@.len()
                    ==> (#[trigger] ants@[i2]).pos < node_count,
                forall|m: int| 0 <= m < node_count
                    ==> (#[trigger] self.occupancy_count@[m])
                        == count_alive_at_upto(ants@, m, j as int),
                forall|m: int| 0 <= m < node_count
                    ==> count_alive_at_upto(ants@, m, j as int) <= j,
                forall|m: int| 0 <= m < node_count && (#[trigger] self.occupancy_count@[m]) >= 1
                    ==> exists|i1: int| 0 <= i1 < j && ants@[i1].alive && ants@[i1].pos == m
                        && ants@[i1].id == self.occupancy_first@[m],
                forall|m: int| 0 <= m < node_count && (#[trigger] self.occupancy_count@[m]) >= 2
                    ==> alive_pair_at(ants@, m, self.occupancy_first@[m],
                        self.occupancy_second@[m]),
                self.base_occupancy == old(self).base_occupancy,
                self.base_first == old(self).base_first,
                self.base_second == old(self).base_second,
                self.base_touched == old(self).base_touched,
                self.generation == old(self).generation,
                self.current_generation == old(self).current_generation,
                self.touched_nodes == old(self).touched_nodes,
            decreases ant_count - j,
        {
            let ghost pre_occ = self.occupancy_count@;
            let ghost pre_of = self.occupancy_first@;
            let ghost pre_os = self.occupancy_second@;
            if ants[j].is_alive() {
                let nid = ants[j].pos as usize;
                let c = self.occupancy_count[nid];
                if c == 0 {
                    self.occupancy_first[nid] = ants[j].id;
                    self.occupancy_count[nid] = 1;
                } else if c == 1 {
                    self.occupancy_second[nid] = ants[j].id;
                    self.occupancy_count[nid] = 2;
                } else {
                    self.occupancy_count[nid] = c + 1;
                }
            }
            proof {
                assert forall|m: int| 0 <= m < node_count
                    && (#[trigger] self.occupancy_count@[m]) >= 1
                    implies exists|i1: int| 0 <= i1 < j + 1 && ants@[i1].alive
                        && ants@[i1].pos == m
                        && ants@[i1].id == self.occupancy_first@[m] by {
                    if ants@[j as int].alive && ants@[j as int].pos == m && pre_occ[m] == 0 {
                        assert(self.occupancy_first@[m] == ants@[j as int].id);
                        assert(0 <= j < j + 1 && ants@[j as int].alive
                            && ants@[j as int].pos == m);
                    } else {
                        assert(pre_occ[m] >= 1);
                        assert(self.occupancy_first@[m] == pre_of[m]);
                        let i1 = choose|i1: int| 0 <= i1 < j && ants@[i1].alive
                            && ants@[i1].pos == m && ants@[i1].id == pre_of[m];
                        assert(0 <= i1 < j + 1 && ants@[i1].alive && ants@[i1].pos == m
                            && ants@[i1].id == self.occupancy_first@[m]);
                    }
                }
                assert forall|m: int| 0 <= m < node_count
                    && (#[trigger] self.occupancy_count@[m]) >= 2
                    implies alive_pair_at(ants@, m, self.occupancy_first@[m],
                        self.occupancy_second@[m]) by {
                    if ants@[j as int].alive && ants@[j as int].pos == m && pre_occ[m] == 1 {
                        assert(self.occupancy_first@[m] == pre_of[m]);
                        assert(self.occupancy_second@[m] == ants@[j as int].id);
                        let i1 = choose|i1: int| 0 <= i1 < j && ants@[i1].alive
                            && ants@[i1].pos == m && ants@[i1].id == pre_of[m];
                        assert(0 <= i1 < j && ants@[i1].alive && ants@[i1].pos == m
                            && ants@[i1].id == self.occupancy_first@[m]
                            && ants@[j as int].alive && ants@[j as int].pos == m
                            && ants@[j as int].id == self.occupancy_second@[m]);
                        assert(alive_pair_at(ants@, m, self.occupancy_first@[m],
                            self.occupancy_second@[m]));
                    } else {
                        assert(pre_occ[m] >= 2);
                        assert(self.occupancy_first@[m] == pre_of[m]);
                        assert(self.occupancy_second@[m] == pre_os[m]);
                        assert(alive_pair_at(ants@, m, pre_of[m], pre_os[m]));
                    }
                }
                assert forall|m: int| 0 <= m < node_count implies
                    (#[trigger] self.occupancy_count@[m])
                        == count_alive_at_upto(ants@, m, j + 1) by {
                    assert(count_alive_at_upto(ants@, m, j + 1)
                        == count_alive_at_upto(ants@, m, j as int)
                            + if ants@[j as int].alive && ants@[j as int].pos == m {
                                1nat
                            } else {
                                0nat
                            });
                    assert(pre_occ[m] == count_alive_at_upto(ants@, m, j as int));
                }
                assert forall|m: int| 0 <= m < node_count implies
                    #[trigger] count_alive_at_upto(ants@, m, j + 1) <= j + 1 by {
                    assert(count_alive_at_upto(ants@, m, j + 1)
                        == count_alive_at_upto(ants@, m, j as int)
                            + if ants@[j as int].alive && ants@[j as int].pos == m {
                                1nat
                            } else {
                                0nat
                            });
                    assert(count_alive_at_upto(ants@, m, j as int) <= j);
                }
            }
            j = j + 1;
        }

        // Destroy every colony with two or more occupants.
        let ghost pre_events = events@;
        let mut nid: usize = 0;
        while nid < node_count
            invariant
                nid <= node_count,
                node_count == old(world).nodes@.len(),
                world.nodes@.len() == node_count,
                world.names == old(world).names,
                old(world).wf(),
                *ants == *old(ants),
                destroyed@.len() == node_count,
                self.occupancy_count@.len() == node_count,
                self.occupancy_first@.len() == node_count,
                self.occupancy_second@.len() == node_count,
                forall|m: int| 0 <= m < node_count
                    ==> (#[trigger] self.occupancy_count@[m]) == count_alive_at(ants@, m),
                nodes_frame(old(world).nodes@, world.nodes@),
                forall|m: int| 0 <= m < nid
                    ==> (#[trigger] world.nodes@[m]).alive
                        == (old(world).nodes@[m].alive && count_alive_at(ants@, m) < 2),
                forall|m: int| nid <= m < node_count
                    ==> (#[trigger] world.nodes@[m]) == old(world).nodes@[m],
                forall|m: int| 0 <= m < nid
                    ==> (#[trigger] destroyed@[m])
                        == (old(world).nodes@[m].alive && count_alive_at(ants@, m) >= 2),
                forall|m: int| nid <= m < node_count ==> !(#[trigger] destroyed@[m]),
                events_extended(pre_events, events@),
                forall|j2: int| pre_events.len() <= j2 < events@.len() ==> {
                    let e = #[trigger] events@[j2];
                    &&& e.colony < node_count
                    &&& old(world).nodes@[e.colony as int].alive
                    &&& count_alive_at(ants@, e.colony as int) >= 2
                    &&& alive_pair_at(ants@, e.colony as int, e.first, e.second)
                    &&& !world.nodes@[e.colony as int].alive
                },
                forall|p: int, q: int| pre_events.len() <= p < q < events@.len()
                    ==> (#[trigger] events@[p]).colony != (#[trigger] events@[q]).colony,
                forall|m: int| 0 <= m < node_count && (#[trigger] self.occupancy_count@[m]) >= 2
                    ==> alive_pair_at(ants@, m, self.occupancy_first@[m],
                        self.occupancy_second@[m]),
                forall|m: int| 0 <= m < nid && old(world).nodes@[m].alive
                    && count_alive_at(ants@, m) >= 2
                    ==> exists|j2: int| pre_events.len() <= j2 < events@.len()
                        && (#[trigger] events@[j2]).colony == m,
                self.base_occupancy == old(self).base_occupancy,
                self.base_first == old(self).base_first,
                self.base_second == old(self).base_second,
                self.base_touched == old(self).base_touched,
                self.generation == old(self).generation,
                self.current_generation == old(self).current_generation,
                self.touched_nodes == old(self).touched_nodes,
            decreases node_count - nid,
        {
            let ghost pre_ev = events@;
            let ghost pre_w = world.nodes@;
            let pushed = self.occupancy_count[nid] >= 2 && world.nodes[nid].is_alive();
            if pushed {
                events.push(DestructionEvent {
                    colony: nid as u32,
                    first: self.occupancy_first[nid],
                    second: self.occupancy_second[nid],
                });
                let name_idx = world.nodes[nid].name_idx;
                let neighbors = world.nodes[nid].neighbors;
                world.nodes[nid] = Node { name_idx, neighbors, alive: false };
                destroyed[nid] = true;
            }
            proof {
                assert forall|m: int| 0 <= m < nid + 1 && old(world).nodes@[m].alive
                    && count_alive_at(ants@, m) >= 2
                    implies exists|j2: int| pre_events.len() <= j2 < events@.len()
                        && (#[trigger] events@[j2]).colony == m by {
                    if m < nid {
                        let j0 = choose|j2: int| pre_events.len() <= j2 < pre_ev.len()
                            && pre_ev[j2].colony == m;
                        assert(events@[j0].colony == m);
                    } else {
                        assert(events@[events@.len() - 1].colony == m);
                    }
                }
                assert forall|j2: int| pre_events.len() <= j2 < events@.len() implies {
                    let e = #[trigger] events@[j2];
                    &&& e.colony < node_count
                    &&& old(world).nodes@[e.colony as int].alive
                    &&& count_alive_at(ants@, e.colony as int) >= 2
                    &&& alive_pair_at(ants@, e.colony as int, e.first, e.second)
                    &&& !world.nodes@[e.colony as int].alive
                } by {
                    if j2 < pre_ev.len() {
                        assert(events@[j2] == pre_ev[j2]);
                        assert(!pre_w[pre_ev[j2].colony as int].alive);
                        assert(pre_ev[j2].colony as int != nid as int);
                    } else {
                        assert(pushed);
                        assert(events@[j2].colony == nid as u32);
                        assert(self.occupancy_count@[nid as int] >= 2);
                        assert(alive_pair_at(ants@, nid as int,
                            self.occupancy_first@[nid as int],
                            self.occupancy_second@[nid as int]));
                    }
                }
                assert forall|p: int, q: int| pre_events.len() <= p < q < events@.len()
                    implies (#[trigger] events@[p]).colony
                        != (#[trigger] events@[q]).colony by {
                    if q >= pre_ev.len() {
                        assert(pushed);
                        assert(!pre_w[pre_ev[p].colony as int].alive);
                        assert(pre_w[nid as int].alive);
                    }
                }
            }
            nid = nid + 1;
        }

        // Kill every ant standing on a destroyed colony.
        let mut k: usize = 0;
        while k < ant_count
            invariant
                k <= ant_count,
                ant_count == ants@.len(),
                ants@.len() == old(ants)@.len(),
                node_count == old(world).nodes@.len(),
                destroyed@.len() == node_count,
                forall|i2: int| 0 <= i2 < old(ants)@.len()
                    ==> (#[trigger] old(ants)@[i2]).pos < node_count,
                forall|m: int| 0 <= m < node_count
                    ==> (#[trigger] destroyed@[m])
                        == (old(world).nodes@[m].alive && count_alive_at(old(ants)@, m) >= 2),
                forall|i2: int| k <= i2 < ants@.len()
                    ==> (#[trigger] ants@[i2]) == old(ants)@[i2],
                forall|i2: int| 0 <= i2 < k ==> {
                    let was = old(ants)@[i2];
                    (#[trigger] ants@[i2]) == if old(world).nodes@[was.pos as int].alive
                        && count_alive_at(old(ants)@, was.pos as int) >= 2 {
                        Ant { alive: false, trapped: false, ..was }
                    } else {
                        was
                    }
                },
            decreases ant_count - k,
        {
            let pos = ants[k].pos;
            if destroyed[pos as usize] {
                let id = ants[k].id;
                let moves = ants[k].moves;
                ants[k] = Ant { pos, id, moves, alive: false, trapped: false };
            }
            k = k + 1;
        }
    }

    /// Per-tick arrival pass. Advances the generation stamp (wrap-safe: an
    /// exhausted counter resets every stamp first), seeds each touched
    /// colony's scratch slot from its stationary stock, counts this tick's
    /// arrivals on top, and destroys exactly the colonies whose combined
    /// occupancy reaches two. A destroyed colony's stationary stock is
    /// cleared so it cannot act again.
    #[verifier::rlimit(100)]
    pub fn process_collisions(
        &mut self,
        world: &mut World,
        ants: &Vec<Ant>,
        active_indices: &Vec<usize>,
        next_positions: &Vec<u32>,
        events: &mut Vec<DestructionEvent>,
    )
        requires
            old(self).wf(old(world).nodes@.len() as int),
            old(world).wf(),
            next_positions@.len() == ants@.len(),
            forall|k: int| 0 <= k < active_indices@.len()
                ==> (#[trigger] active_indices@[k]) < ants@.len(),
            forall|k: int| 0 <= k < active_indices@.len()
                && ants@[active_indices@[k] as int].alive
                ==> (#[trigger] next_positions@[active_indices@[k] as int])
                    < old(world).nodes@.len(),
            forall|m: int| 0 <= m < old(world).nodes@.len()
                ==> (#[trigger] old(self).base_occupancy@[m]) + active_indices@.len()
                    <= u32::MAX,
        ensures
            final(self).wf(final(world).nodes@.len() as int),
            final(world).names == old(world).names,
            nodes_frame(old(world).nodes@, final(world).nodes@),
            forall|m: int| 0 <= m < old(world).nodes@.len()
                ==> (#[trigger] final(world).nodes@[m]).alive
                    == (old(world).nodes@[m].alive
                        && !old(self).tick_collision(*old(world), ants@, active_indices@,
                            next_positions@, m)),
            forall|m: int| 0 <= m < old(world).nodes@.len()
                ==> (#[trigger] final(self).base_occupancy@[m])
                    == if old(self).tick_collision(*old(world), ants@, active_indices@,
                        next_positions@, m) {
                        0
                    } else {
                        old(self).base_occupancy@[m]
                    },
            forall|m: int| 0 <= m < old(world).nodes@.len()
                ==> (#[trigger] final(self).base_first@[m])
                    == if old(self).tick_collision(*old(world), ants@, active_indices@,
                        next_positions@, m) {
                        u32::MAX
                    } else {
                        old(self).base_first@[m]
                    },
            forall|m: int| 0 <= m < old(world).nodes@.len()
                ==> (#[trigger] final(self).base_second@[m])
                    == if old(self).tick_collision(*old(world), ants@, active_indices@,
                        next_positions@, m) {
                        u32::MAX
                    } else {
                        old(self).base_second@[m]
                    },
            final(self).base_touched@.len() == 0,
            events_extended(old(events)@, final(events)@),
            forall|j: int| old(events)@.len() <= j < final(events)@.len()
                ==> (#[trigger] final(events)@[j]).colony < old(world).nodes@.len()
                    && old(self).tick_collision(*old(world), ants@, active_indices@,
                        next_positions@, final(events)@[j].colony as int),
            forall|m: int| 0 <= m < old(world).nodes@.len()
                && old(self).tick_collision(*old(world), ants@, active_indices@,
                    next_positions@, m)
                ==> exists|j: int| old(events)@.len() <= j < final(events)@.len()
                    && (#[trigger] final(events)@[j]).colony == m,
            forall|j1: int, j2: int| old(events)@.len() <= j1 < j2 < final(events)@.len()
                ==> (#[trigger] final(events)@[j1]).colony
                    != (#[trigger] final(events)@[j2]).colony,
            forall|j: int| old(events)@.len() <= j < final(events)@.len() ==> {
                let e = #[trigger] final(events)@[j];
                &&& (e.first == old(self).base_first@[e.colony as int]
                    || arrival_with_id(ants@, active_indices@, next_positions@,
                        e.colony as int, e.first))
                &&& (e.second == old(self).base_second@[e.colony as int]
                    || arrival_with_id(ants@, active_indices@, next_positions@,
                        e.colony as int, e.second))
            },
            final(self).current_generation == if old(self).current_generation == u64::MAX {
                1u64
            } else {
                (old(self).current_generation + 1) as u64
            },
    {
        let nn = world.nodes.len();
        self.base_touched.clear();
        self.touched_nodes.clear();
        if self.current_generation == u64::MAX {
            let mut z: usize = 0;
            while z < nn
                invariant
                    z <= nn,
                    self.generation@.len() == nn,
                    forall|m: int| 0 <= m < z ==> (#[trigger] self.generation@[m]) == 0,
                    self.occupancy_count == old(self).occupancy_count,
                    self.occupancy_first == old(self).occupancy_first,
                    self.occupancy_second == old(self).occupancy_second,
                    self.base_occupancy == old(self).base_occupancy,
                    self.base_first == old(self).base_first,
                    self.base_second == old(self).base_second,
                    self.current_generation == old(self).current_generation,
                    self.base_touched@.len() == 0,
                    self.touched_nodes@.len() == 0,
                decreases nn - z,
            {
                self.generation[z] = 0;
                z = z + 1;
            }
            self.current_generation = 0;
        }
        self.current_generation = self.current_generation + 1;
        let ghost cur = self.current_generation;

        // Build occupancy: seed each first-touched colony from its
        // stationary stock, then add this tick's arrivals.
        let acount = active_indices.len();
        let mut k: usize = 0;
        while k < acount
            invariant
                k <= acount,
                acount == active_indices@.len(),
                nn == old(world).nodes@.len(),
                *world == *old(world),
                old(world).wf(),
                next_positions@.len() == ants@.len(),
                forall|k2: int| 0 <= k2 < active_indices@.len()
                    ==> (#[trigger] active_indices@[k2]) < ants@.len(),
                forall|k2: int| 0 <= k2 < active_indices@.len()
                    && ants@[active_indices@[k2] as int].alive
                    ==> (#[trigger] next_positions@[active_indices@[k2] as int]) < nn,
                forall|m: int| 0 <= m < nn
                    ==> (#[trigger] old(self).base_occupancy@[m]) + acount <= u32::MAX,
                self.occupancy_count@.len() == nn,
                self.occupancy_first@.len() == nn,
                self.occupancy_second@.len() == nn,
                self.generation@.len() == nn,
                self.base_occupancy@.len() == nn,
                self.base_first@.len() == nn,
                self.base_second@.len() == nn,
                self.base_occupancy == old(self).base_occupancy,
                self.base_first == old(self).base_first,
                self.base_second == old(self).base_second,
                self.base_touched@.len() == 0,
                self.current_generation == cur,
                events@ == old(events)@,
                forall|m: int| 0 <= m < nn
                    ==> (#[trigger] self.generation@[m]) <= cur,
                forall|m: int| 0 <= m < nn
                    ==> ((#[trigger] self.generation@[m]) == cur
                        <==> appears_before(self.touched_nodes@, m,
                            self.touched_nodes@.len() as int)),
                forall|k2: int| 0 <= k2 < self.touched_nodes@.len()
                    ==> (#[trigger] self.touched_nodes@[k2]) < nn,
                forall|p: int, q: int| 0 <= p < q < self.touched_nodes@.len()
                    ==> self.touched_nodes@[p] != self.touched_nodes@[q],
                forall|m: int| 0 <= m < nn && self.generation@[m] == cur
                    ==> (#[trigger] self.occupancy_count@[m])
                        == old(self).base_occupancy@[m]
                            + count_arrivals_upto(ants@, active_indices@, next_positions@,
                                m, k as int),
                forall|m: int| 0 <= m < nn && self.generation@[m] != cur
                    ==> count_arrivals_upto(ants@, active_indices@, next_positions@, m,
                        k as int) == 0,
                forall|m: int| 0 <= m < nn && self.generation@[m] == cur
                    ==> count_arrivals_upto(ants@, active_indices@, next_positions@, m,
                        k as int) >= 1,
                forall|m: int| 0 <= m < nn
                    ==> #[trigger] count_arrivals_upto(ants@, active_indices@,
                        next_positions@, m, k as int) <= k,
                forall|m: int| 0 <= m < nn && (#[trigger] self.generation@[m]) == cur
                    ==> (self.occupancy_first@[m] == old(self).base_first@[m]
                        || arrival_with_id(ants@, active_indices@, next_positions@, m,
                            self.occupancy_first@[m])),
                forall|m: int| 0 <= m < nn && (#[trigger] self.generation@[m]) == cur
                    ==> (self.occupancy_second@[m] == old(self).base_second@[m]
                        || arrival_with_id(ants@, active_indices@, next_positions@, m,
                            self.occupancy_second@[m])),
            decreases acount - k,
        {
            let ghost pre_gen = self.generation@;
            let ghost pre_occ = self.occupancy_count@;
            let ghost pre_of = self.occupancy_first@;
            let ghost pre_os = self.occupancy_second@;
            let ghost pre_touched = self.touched_nodes@;
            let ai = active_indices[k];
            let ghost arrived = ants@[ai as int].alive;
            let ghost dest: int = next_positions@[ai as int] as int;
            if ants[ai].is_alive() {
                let nid = next_positions[ai] as usize;
                if self.generation[nid] != self.current_generation {
                    self.generation[nid] = self.current_generation;
                    self.occupancy_count[nid] = self.base_occupancy[nid];
                    self.occupancy_first[nid] = self.base_first[nid];
                    self.occupancy_second[nid] = self.base_second[nid];
                    self.touched_nodes.push(nid);
                    proof {
                        assert(count_arrivals_upto(ants@, active_indices@, next_positions@,
                            nid as int, k as int) == 0);
                    }
                }
                let c = self.occupancy_count[nid];
                if c == 0 {
                    self.occupancy_first[nid] = ants[ai].id;
                    self.occupancy_count[nid] = 1;
                } else if c == 1 {
                    if self.occupancy_first[nid] == u32::MAX {
                        self.occupancy_first[nid] = ants[ai].id;
                    } else {
                        self.occupancy_second[nid] = ants[ai].id;
                    }
                    self.occupancy_count[nid] = 2;
                } else {
                    self.occupancy_count[nid] = c + 1;
                }
            }
            proof {
                assert forall|m: int| 0 <= m < nn implies
                    #[trigger] count_arrivals_upto(ants@, active_indices@, next_positions@,
                        m, k + 1)
                        == count_arrivals_upto(ants@, active_indices@, next_positions@, m,
                            k as int) + if arrived && dest == m { 1int } else { 0int } by {
                    assert(count_arrivals_upto(ants@, active_indices@, next_positions@, m,
                        k + 1) == count_arrivals_upto(ants@, active_indices@,
                            next_positions@, m, k as int)
                        + if ants@[active_indices@[k as int] as int].alive
                            && next_positions@[active_indices@[k as int] as int] == m {
                            1nat
                        } else {
                            0nat
                        });
                }
                assert forall|m: int| 0 <= m < nn && (#[trigger] self.generation@[m]) == cur
                    implies (self.occupancy_first@[m] == old(self).base_first@[m]
                        || arrival_with_id(ants@, active_indices@, next_positions@, m,
                            self.occupancy_first@[m]))
                        && (self.occupancy_second@[m] == old(self).base_second@[m]
                        || arrival_with_id(ants@, active_indices@, next_positions@, m,
                            self.occupancy_second@[m])) by {
                    if arrived && m == dest {
                        assert(self.occupancy_first@[m] == old(self).base_first@[m]
                            || self.occupancy_first@[m] == pre_of[m]
                            || self.occupancy_first@[m] == ants@[ai as int].id);
                        assert(self.occupancy_second@[m] == old(self).base_second@[m]
                            || self.occupancy_second@[m] == pre_os[m]
                            || self.occupancy_second@[m] == ants@[ai as int].id);
                        assert(0 <= k < active_indices@.len()
                            && ants@[active_indices@[k as int] as int].alive
                            && next_positions@[active_indices@[k as int] as int] == m
                            && ants@[active_indices@[k as int] as int].id
                                == ants@[ai as int].id);
                        assert(arrival_with_id(ants@, active_indices@, next_positions@, m,
                            ants@[ai as int].id));
                        if self.occupancy_first@[m] == pre_of[m] && pre_gen[m] == cur {
                            assert(pre_of[m] == old(self).base_first@[m]
                                || arrival_with_id(ants@, active_indices@, next_positions@,
                                    m, pre_of[m]));
                        }
                        if self.occupancy_second@[m] == pre_os[m] && pre_gen[m] == cur {
                            assert(pre_os[m] == old(self).base_second@[m]
                                || arrival_with_id(ants@, active_indices@, next_positions@,
                                    m, pre_os[m]));
                        }
                    } else {
                        assert(self.occupancy_first@[m] == pre_of[m]);
                        assert(self.occupancy_second@[m] == pre_os[m]);
                        assert(pre_gen[m] == cur);
                    }
                }
                assert forall|m: int| 0 <= m < nn
                    implies ((#[trigger] self.generation@[m]) == cur
                        <==> appears_before(self.touched_nodes@, m,
                            self.touched_nodes@.len() as int)) by {
                    if self.generation@[m] == cur {
                        if pre_gen[m] == cur {
                            let i0 = choose|idx: int| 0 <= idx < pre_touched.len()
                                && pre_touched[idx] == m;
                            assert(self.touched_nodes@[i0] == m);
                        } else {
                            assert(self.touched_nodes@[self.touched_nodes@.len() - 1] == m);
                        }
                    } else {
                        if appears_before(self.touched_nodes@, m,
                            self.touched_nodes@.len() as int) {
                            let i0 = choose|idx: int| 0 <= idx < self.touched_nodes@.len()
                                && self.touched_nodes@[idx] == m;
                            if i0 < pre_touched.len() {
                                assert(pre_touched[i0] == m);
                                assert(pre_gen[m] == cur);
                            }
                            assert(false);
                        }
                    }
                }
            }
            k = k + 1;
        }

        // Destroy every touched colony whose combined occupancy reached two,
        // and clear its stationary stock.
        let ghost pre_events = events@;
        let tcount = self.touched_nodes.len();
        let mut t: usize = 0;
        while t < tcount
            invariant
                t <= tcount,
                tcount == self.touched_nodes@.len(),
                nn == old(world).nodes@.len(),
                world.nodes@.len() == nn,
                world.names == old(world).names,
                old(world).wf(),
                nodes_frame(old(world).nodes@, world.nodes@),
                self.occupancy_count@.len() == nn,
                self.occupancy_first@.len() == nn,
                self.occupancy_second@.len() == nn,
                self.generation@.len() == nn,
                self.base_occupancy@.len() == nn,
                self.base_first@.len() == nn,
                self.base_second@.len() == nn,
                self.base_touched@.len() == 0,
                self.current_generation == cur,
                forall|m: int| 0 <= m < nn ==> (#[trigger] self.generation@[m]) <= cur,
                forall|k2: int| 0 <= k2 < self.touched_nodes@.len()
                    ==> (#[trigger] self.touched_nodes@[k2]) < nn,
                forall|p: int, q: int| 0 <= p < q < self.touched_nodes@.len()
                    ==> self.touched_nodes@[p] != self.touched_nodes@[q],
                forall|m: int| 0 <= m < nn
                    ==> ((#[trigger] self.generation@[m]) == cur
                        <==> appears_before(self.touched_nodes@, m, tcount as int)),
                forall|m: int| 0 <= m < nn && self.generation@[m] == cur
                    ==> (#[trigger] self.occupancy_count@[m])
                        == old(self).base_occupancy@[m]
                            + count_arrivals(ants@, active_indices@, next_positions@, m),
                forall|m: int| 0 <= m < nn && self.generation@[m] != cur
                    ==> count_arrivals(ants@, active_indices@, next_positions@, m) == 0,
                forall|m: int| 0 <= m < nn && self.generation@[m] == cur
                    ==> count_arrivals(ants@, active_indices@, next_positions@, m) >= 1,
                forall|m: int| 0 <= m < nn
                    ==> (#[trigger] world.nodes@[m]).alive == (old(world).nodes@[m].alive
                        && !(appears_before(self.touched_nodes@, m, t as int)
                            && old(self).tick_collision(*old(world), ants@, active_indices@,
                                next_positions@, m))),
                forall|m: int| 0 <= m < nn
                    ==> (#[trigger] self.base_occupancy@[m])
                        == if appears_before(self.touched_nodes@, m, t as int)
                            && old(self).tick_collision(*old(world), ants@, active_indices@,
                                next_positions@, m) {
                            0u32
                        } else {
                            old(self).base_occupancy@[m]
                        },
                forall|m: int| 0 <= m < nn
                    ==> (#[trigger] self.base_first@[m])
                        == if appears_before(self.touched_nodes@, m, t as int)
                            && old(self).tick_collision(*old(world), ants@, active_indices@,
                                next_positions@, m) {
                            u32::MAX
                        } else {
                            old(self).base_first@[m]
                        },
                forall|m: int| 0 <= m < nn
                    ==> (#[trigger] self.base_second@[m])
                        == if appears_before(self.touched_nodes@, m, t as int)
                            && old(self).tick_collision(*old(world), ants@, active_indices@,
                                next_positions@, m) {
                            u32::MAX
                        } else {
                            old(self).base_second@[m]
                        },
                forall|m: int| 0 <= m < nn && (#[trigger] self.generation@[m]) == cur
                    ==> (self.occupancy_first@[m] == old(self).base_first@[m]
                        || arrival_with_id(ants@, active_indices@, next_positions@, m,
                            self.occupancy_first@[m])),
                forall|m: int| 0 <= m < nn && (#[trigger] self.generation@[m]) == cur
                    ==> (self.occupancy_second@[m] == old(self).base_second@[m]
                        || arrival_with_id(ants@, active_indices@, next_positions@, m,
                            self.occupancy_second@[m])),
                events_extended(pre_events, events@),
                forall|j: int| pre_events.len() <= j < events@.len()
                    ==> (#[trigger] events@[j]).colony < nn
                        && old(self).tick_collision(*old(world), ants@, active_indices@,
                            next_positions@, events@[j].colony as int),
                forall|j: int| pre_events.len() <= j < events@.len() ==> {
                    let e = #[trigger] events@[j];
                    &&& !world.nodes@[e.colony as int].alive
                    &&& (e.first == old(self).base_first@[e.colony as int]
                        || arrival_with_id(ants@, active_indices@, next_positions@,
                            e.colony as int, e.first))
                    &&& (e.second == old(self).base_second@[e.colony as int]
                        || arrival_with_id(ants@, active_indices@, next_positions@,
                            e.colony as int, e.second))
                },
                forall|p: int, q: int| pre_events.len() <= p < q < events@.len()
                    ==> (#[trigger] events@[p]).colony != (#[trigger] events@[q]).colony,
                forall|m: int| 0 <= m < nn
                    && old(self).tick_collision(*old(world), ants@, active_indices@,
                        next_positions@, m)
                    && #[trigger] appears_before(self.touched_nodes@, m, t as int)
                    ==> exists|j: int| pre_events.len() <= j < events@.len()
                        && (#[trigger] events@[j]).colony == m,
            decreases tcount - t,
        {
            let ghost pre_ev2 = events@;
            let ghost pre_nodes = world.nodes@;
            let ghost pre_bocc = self.base_occupancy@;
            let ghost pre_bfst = self.base_first@;
            let ghost pre_bsnd = self.base_second@;
            let nid = self.touched_nodes[t];
            proof {
                assert(appears_before(self.touched_nodes@, nid as int, tcount as int));
                assert(!appears_before(self.touched_nodes@, nid as int, t as int)) by {
                    if appears_before(self.touched_nodes@, nid as int, t as int) {
                        let i0 = choose|idx: int| 0 <= idx < t
                            && self.touched_nodes@[idx] == nid as int;
                        assert(self.touched_nodes@[i0] == self.touched_nodes@[t as int]);
                        assert(false);
                    }
                }
                assert forall|m: int| 0 <= m < nn && m != nid as int implies
                    (appears_before(self.touched_nodes@, m, t + 1)
                        <==> #[trigger] appears_before(self.touched_nodes@, m, t as int)) by {
                    if appears_before(self.touched_nodes@, m, t + 1) && m != nid as int {
                        let i0 = choose|idx: int| 0 <= idx < t + 1
                            && self.touched_nodes@[idx] == m;
                        assert(i0 != t as int);
                        assert(0 <= i0 < t && self.touched_nodes@[i0] == m);
                    }
                }
                assert(appears_before(self.touched_nodes@, nid as int, t + 1)) by {
                    assert(self.touched_nodes@[t as int] == nid as int);
                }
            }
            let collide = self.occupancy_count[nid] >= 2;
            let alive_now = world.nodes[nid].is_alive();
            proof {
                assert(world.nodes@[nid as int].alive == old(world).nodes@[nid as int].alive);
                assert(self.generation@[nid as int] == cur);
                assert(self.occupancy_count@[nid as int]
                    == old(self).base_occupancy@[nid as int]
                        + count_arrivals(ants@, active_indices@, next_positions@, nid as int));
                assert(count_arrivals(ants@, active_indices@, next_positions@, nid as int) >= 1);
                assert(old(self).tick_collision(*old(world), ants@, active_indices@,
                    next_positions@, nid as int) == (collide && alive_now));
            }
            if collide && alive_now {
                events.push(DestructionEvent {
                    colony: nid as u32,
                    first: self.occupancy_first[nid],
                    second: self.occupancy_second[nid],
                });
                let name_idx = world.nodes[nid].name_idx;
                let neighbors = world.nodes[nid].neighbors;
                world.nodes[nid] = Node { name_idx, neighbors, alive: false };
                self.base_occupancy[nid] = 0;
                self.base_first[nid] = u32::MAX;
                self.base_second[nid] = u32::MAX;
            }
            proof {
                assert forall|m: int| 0 <= m < nn implies
                    (#[trigger] world.nodes@[m]).alive == (old(world).nodes@[m].alive
                        && !(appears_before(self.touched_nodes@, m, t + 1)
                            && old(self).tick_collision(*old(world), ants@, active_indices@,
                                next_positions@, m))) by {
                    if m == nid as int {
                        assert(appears_before(self.touched_nodes@, m, t + 1));
                    } else {
                        assert(world.nodes@[m] == pre_nodes[m]);
                        assert(pre_nodes[m].alive == (old(world).nodes@[m].alive
                            && !(appears_before(self.touched_nodes@, m, t as int)
                                && old(self).tick_collision(*old(world), ants@,
                                    active_indices@, next_positions@, m))));
                    }
                }
                assert forall|m: int| 0 <= m < nn implies
                    (#[trigger] self.base_occupancy@[m])
                        == if appears_before(self.touched_nodes@, m, t + 1)
                            && old(self).tick_collision(*old(world), ants@, active_indices@,
                                next_positions@, m) {
                            0u32
                        } else {
                            old(self).base_occupancy@[m]
                        } by {
                    if m != nid as int {
                        assert(self.base_occupancy@[m] == pre_bocc[m]);
                    }
                }
                assert forall|m: int| 0 <= m < nn implies
                    (#[trigger] self.base_first@[m])
                        == if appears_before(self.touched_nodes@, m, t + 1)
                            && old(self).tick_collision(*old(world), ants@, active_indices@,
                                next_positions@, m) {
                            u32::MAX
                        } else {
                            old(self).base_first@[m]
                        } by {
                    if m != nid as int {
                        assert(self.base_first@[m] == pre_bfst[m]);
                    }
                }
                assert forall|m: int| 0 <= m < nn implies
                    (#[trigger] self.base_second@[m])
                        == if appears_before(self.touched_nodes@, m, t + 1)
                            && old(self).tick_collision(*old(world), ants@, active_indices@,
                                next_positions@, m) {
                            u32::MAX
                        } else {
                            old(self).base_second@[m]
                        } by {
                    if m != nid as int {
                        assert(self.base_second@[m] == pre_bsnd[m]);
                    }
                }
                assert forall|j: int| pre_events.len() <= j < events@.len() implies {
                    let e = #[trigger] events@[j];
                    &&& !world.nodes@[e.colony as int].alive
                    &&& (e.first == old(self).base_first@[e.colony as int]
                        || arrival_with_id(ants@, active_indices@, next_positions@,
                            e.colony as int, e.first))
                    &&& (e.second == old(self).base_second@[e.colony as int]
                        || arrival_with_id(ants@, active_indices@, next_positions@,
                            e.colony as int, e.second))
                } by {
                    if j < pre_ev2.len() {
                        assert(events@[j] == pre_ev2[j]);
                        assert(pre_ev2[j].colony as int != nid as int);
                        assert(world.nodes@[pre_ev2[j].colony as int]
                            == pre_nodes[pre_ev2[j].colony as int]);
                    } else {
                        assert(collide && alive_now);
                        assert(events@[j].colony == nid as u32);
                        assert(self.generation@[nid as int] == cur);
                        assert(events@[j].first == self.occupancy_first@[nid as int]);
                        assert(events@[j].second == self.occupancy_second@[nid as int]);
                    }
                }
                assert forall|p: int, q: int| pre_events.len() <= p < q < events@.len()
                    implies (#[trigger] events@[p]).colony
                        != (#[trigger] events@[q]).colony by {
                    if q >= pre_ev2.len() {
                        assert(collide && alive_now);
                        assert(!pre_nodes[pre_ev2[p].colony as int].alive);
                        assert(pre_nodes[nid as int].alive);
                    }
                }
                assert forall|m: int| 0 <= m < nn
                    && old(self).tick_collision(*old(world), ants@, active_indices@,
                        next_positions@, m)
                    && #[trigger] appears_before(self.touched_nodes@, m, t + 1)
                    implies exists|j: int| pre_events.len() <= j < events@.len()
                        && (#[trigger] events@[j]).colony == m by {
                    if appears_before(self.touched_nodes@, m, t as int) {
                        let j0 = choose|j: int| pre_events.len() <= j < pre_ev2.len()
                            && pre_ev2[j].colony == m;
                        assert(events@[j0].colony == m);
                    } else {
                        assert(m == nid as int);
                        assert(events@[events@.len() - 1].colony == m);
                    }
                }
            }
            t = t + 1;
        }
        proof {
            assert forall|m: int| 0 <= m < nn
                && old(self).tick_collision(*old(world), ants@, active_indices@,
                    next_positions@, m)
                implies exists|j: int| pre_events.len() <= j < events@.len()
                    && (#[trigger] events@[j]).colony == m by {
                assert(count_arrivals(ants@, active_indices@, next_positions@, m) > 0);
                assert(self.generation@[m] == cur) by {
                    if self.generation@[m] != cur {
                        assert(count_arrivals(ants@, active_indices@, next_positions@, m)
                            == 0);
                    }
                }
                assert(appears_before(self.touched_nodes@, m, tcount as int));
            }
            assert forall|m: int| 0 <= m < nn
                && old(self).tick_collision(*old(world), ants@, active_indices@,
                    next_positions@, m)
                implies !(#[trigger] world.nodes@[m]).alive by {
                assert(self.generation@[m] == cur) by {
                    if self.generation@[m] != cur {
                        assert(count_arrivals(ants@, active_indices@, next_positions@, m)
                            == 0);
                    }
                }
                assert(appears_before(self.touched_nodes@, m, tcount as int));
            }
            assert forall|m: int| 0 <= m < nn
                && old(self).tick_collision(*old(world), ants@, active_indices@,
                    next_positions@, m)
                implies (#[trigger] self.base_occupancy@[m]) == 0 by {
                assert(self.generation@[m] == cur) by {
                    if self.generation@[m] != cur {
                        assert(count_arrivals(ants@, active_indices@, next_positions@, m)
                            == 0);
                    }
                }
                assert(appears_before(self.touched_nodes@, m, tcount as int));
            }
            assert forall|m: int| 0 <= m < nn
                && old(self).tick_collision(*old(world), ants@, active_indices@,
                    next_positions@, m)
                implies (#[trigger] self.base_first@[m]) == u32::MAX by {
                assert(self.generation@[m] == cur) by {
                    if self.generation@[m] != cur {
                        assert(count_arrivals(ants@, active_indices@, next_positions@, m)
                            == 0);
                    }
                }
                assert(appears_before(self.touched_nodes@, m, tcount as int));
            }
            assert forall|m: int| 0 <= m < nn
                && old(self).tick_collision(*old(world), ants@, active_indices@,
                    next_positions@, m)
                implies (#[trigger] self.base_second@[m]) == u32::MAX by {
                assert(self.generation@[m] == cur) by {
                    if self.generation@[m] != cur {
                        assert(count_arrivals(ants@, active_indices@, next_positions@, m)
                            == 0);
                    }
                }
                assert(appears_before(self.touched_nodes@, m, tcount as int));
            }
            assert forall|m: int| 0 <= m < nn
                && !old(self).tick_collision(*old(world), ants@, active_indices@,
                    next_positions@, m)
                implies (#[trigger] world.nodes@[m]).alive == old(world).nodes@[m].alive
                    && self.base_occupancy@[m] == old(self).base_occupancy@[m]
                    && self.base_first@[m] == old(self).base_first@[m]
                    && self.base_second@[m] == old(self).base_second@[m] by {
                assert(self.base_occupancy@[m] == old(self).base_occupancy@[m]);
                assert(self.base_first@[m] == old(self).base_first@[m]);
                assert(self.base_second@[m] == old(self).base_second@[m]);
            }
        }
    }

    /// Register an ant that newly became stationary (trapped or
    /// move-exhausted) at `node_id` this tick.
    ///
    /// The node is tracked in `base_touched` while its stock is still below
    /// two, so that a later stationary-collision pass looks only at nodes
    /// that could newly have reached a colliding stock.
    pub fn add_stationary_ant(&mut self, node_id: usize, ant_id: u32)
        requires
            node_id < old(self).base_occupancy@.len(),
            old(self).base_occupancy@.len() == old(self).base_first@.len(),
            old(self).base_occupancy@.len() == old(self).base_second@.len(),
            old(self).base_occupancy@[node_id as int] < u32::MAX,
        ensures
            final(self).base_occupancy@ == old(self).base_occupancy@.update(
                node_id as int,
                (old(self).base_occupancy@[node_id as int] + 1) as u32,
            ),
            final(self).base_first@ == if old(self).base_occupancy@[node_id as int] == 0 {
                old(self).base_first@.update(node_id as int, ant_id)
            } else {
                old(self).base_first@
            },
            final(self).base_second@ == if old(self).base_occupancy@[node_id as int] == 1 {
                old(self).base_second@.update(node_id as int, ant_id)
            } else {
                old(self).base_second@
            },
            final(self).base_touched@ == if old(self).base_occupancy@[node_id as int] < 2 {
                old(self).base_touched@.push(node_id)
            } else {
                old(self).base_touched@
            },
            final(self).occupancy_count == old(self).occupancy_count,
            final(self).occupancy_first == old(self).occupancy_first,
            final(self).occupancy_second == old(self).occupancy_second,
            final(self).generation == old(self).generation,
            final(self).current_generation == old(self).current_generation,
            final(self).touched_nodes == old(self).touched_nodes,
    {
        let stock = self.base_occupancy[node_id];
        if stock == 0 {
            self.base_first[node_id] = ant_id;
        } else if stock == 1 {
            self.base_second[node_id] = ant_id;
        }
        if stock < 2 {
            self.base_touched.push(node_id);
        }
        self.base_occupancy[node_id] = stock + 1;
    }

    /// Pure-stationary pass, run after the commit step: every colony that
    /// newly gained stationary stock this tick and holds two or more
    /// stationary ants is destroyed and its stock cleared.
    pub fn process_stationary_collisions(
        &mut self,
        world: &mut World,
        events: &mut Vec<DestructionEvent>,
    )
        requires
            old(self).wf(old(world).nodes@.len() as int),
            old(world).wf(),
        ensures
            final(self).wf(final(world).nodes@.len() as int),
            final(world).names == old(world).names,
            nodes_frame(old(world).nodes@, final(world).nodes@),
            forall|m: int| 0 <= m < old(world).nodes@.len()
                ==> (#[trigger] final(world).nodes@[m]).alive
                    == (old(world).nodes@[m].alive
                        && !old(self).stationary_collision(*old(world), m)),
            forall|m: int| 0 <= m < old(world).nodes@.len()
                ==> (#[trigger] final(self).base_occupancy@[m])
                    == if old(self).stationary_collision(*old(world), m) {
                        0
                    } else {
                        old(self).base_occupancy@[m]
                    },
            forall|m: int| 0 <= m < old(world).nodes@.len()
                ==> (#[trigger] final(self).base_first@[m])
                    == if old(self).stationary_collision(*old(world), m) {
                        u32::MAX
                    } else {
                        old(self).base_first@[m]
                    },
            forall|m: int| 0 <= m < old(world).nodes@.len()
                ==> (#[trigger] final(self).base_second@[m])
                    == if old(self).stationary_collision(*old(world), m) {
                        u32::MAX
                    } else {
                        old(self).base_second@[m]
                    },
            final(self).base_touched == old(self).base_touched,
            final(self).touched_nodes == old(self).touched_nodes,
            final(self).generation == old(self).generation,
            final(self).current_generation == old(self).current_generation,
            final(self).occupancy_count == old(self).occupancy_count,
            final(self).occupancy_first == old(self).occupancy_first,
            final(self).occupancy_second == old(self).occupancy_second,
            events_extended(old(events)@, final(events)@),
            forall|j: int| old(events)@.len() <= j < final(events)@.len()
                ==> (#[trigger] final(events)@[j]).colony < old(world).nodes@.len()
                    && old(self).stationary_collision(*old(world),
                        final(events)@[j].colony as int),
            forall|m: int| 0 <= m < old(world).nodes@.len()
                && old(self).stationary_collision(*old(world), m)
                ==> exists|j: int| old(events)@.len() <= j < final(events)@.len()
                    && (#[trigger] final(events)@[j]).colony == m,
            forall|j1: int, j2: int| old(events)@.len() <= j1 < j2 < final(events)@.len()
                ==> (#[trigger] final(events)@[j1]).colony
                    != (#[trigger] final(events)@[j2]).colony,
            forall|j: int| old(events)@.len() <= j < final(events)@.len() ==> {
                let e = #[trigger] final(events)@[j];
                &&& e.first == old(self).base_first@[e.colony as int]
                &&& e.second == old(self).base_second@[e.colony as int]
            },
    {
        let nn = world.nodes.len();
        let ghost pre_events = events@;
        let tcount = self.base_touched.len();
        let mut t: usize = 0;
        while t < tcount
            invariant
                t <= tcount,
                tcount == self.base_touched@.len(),
                nn == old(world).nodes@.len(),
                world.nodes@.len() == nn,
                world.names == old(world).names,
                old(world).wf(),
                nodes_frame(old(world).nodes@, world.nodes@),
                self.base_occupancy@.len() == nn,
                self.base_first@.len() == nn,
                self.base_second@.len() == nn,
                self.base_touched == old(self).base_touched,
                self.touched_nodes == old(self).touched_nodes,
                self.generation == old(self).generation,
                self.current_generation == old(self).current_generation,
                self.occupancy_count == old(self).occupancy_count,
                self.occupancy_first == old(self).occupancy_first,
                self.occupancy_second == old(self).occupancy_second,
                forall|k2: int| 0 <= k2 < self.base_touched@.len()
                    ==> (#[trigger] self.base_touched@[k2]) < nn,
                forall|m: int| 0 <= m < nn
                    ==> (#[trigger] world.nodes@[m]).alive == (old(world).nodes@[m].alive
                        && !(appears_before(self.base_touched@, m, t as int)
                            && old(self).stationary_collision(*old(world), m))),
                forall|m: int| 0 <= m < nn
                    ==> (#[trigger] self.base_occupancy@[m])
                        == if appears_before(self.base_touched@, m, t as int)
                            && old(self).stationary_collision(*old(world), m) {
                            0u32
                        } else {
                            old(self).base_occupancy@[m]
                        },
                forall|m: int| 0 <= m < nn
                    ==> (#[trigger] self.base_first@[m])
                        == if appears_before(self.base_touched@, m, t as int)
                            && old(self).stationary_collision(*old(world), m) {
                            u32::MAX
                        } else {
                            old(self).base_first@[m]
                        },
                forall|m: int| 0 <= m < nn
                    ==> (#[trigger] self.base_second@[m])
                        == if appears_before(self.base_touched@, m, t as int)
                            && old(self).stationary_collision(*old(world), m) {
                            u32::MAX
                        } else {
                            old(self).base_second@[m]
                        },
                events_extended(pre_events, events@),
                forall|j: int| pre_events.len() <= j < events@.len()
                    ==> (#[trigger] events@[j]).colony < nn
                        && old(self).stationary_collision(*old(world),
                            events@[j].colony as int),
                forall|j: int| pre_events.len() <= j < events@.len() ==> {
                    let e = #[trigger] events@[j];
                    &&& !world.nodes@[e.colony as int].alive
                    &&& e.first == old(self).base_first@[e.colony as int]
                    &&& e.second == old(self).base_second@[e.colony as int]
                },
                forall|p: int, q: int| pre_events.len() <= p < q < events@.len()
                    ==> (#[trigger] events@[p]).colony != (#[trigger] events@[q]).colony,
                forall|m: int| 0 <= m < nn
                    && old(self).stationary_collision(*old(world), m)
                    && #[trigger] appears_before(self.base_touched@, m, t as int)
                    ==> exists|j: int| pre_events.len() <= j < events@.len()
                        && (#[trigger] events@[j]).colony == m,
            decreases tcount - t,
        {
            let ghost pre_ev2 = events@;
            let ghost pre_nodes = world.nodes@;
            let ghost pre_bocc = self.base_occupancy@;
            let ghost pre_bfst = self.base_first@;
            let ghost pre_bsnd = self.base_second@;
            let nid = self.base_touched[t];
            proof {
                assert(self.base_touched@[t as int] == nid as int);
                assert(appears_before(self.base_touched@, nid as int, t + 1));
                assert(old(self).base_touched_contains(nid as int));
                assert forall|m: int| 0 <= m < nn && m != nid as int implies
                    (appears_before(self.base_touched@, m, t + 1)
                        <==> #[trigger] appears_before(self.base_touched@, m, t as int)) by {
                    if appears_before(self.base_touched@, m, t + 1) && m != nid as int {
                        let i0 = choose|idx: int| 0 <= idx < t + 1
                            && self.base_touched@[idx] == m;
                        assert(i0 != t as int);
                        assert(0 <= i0 < t && self.base_touched@[i0] == m);
                    }
                }
            }
            let collide = self.base_occupancy[nid] >= 2;
            let alive_now = world.nodes[nid].is_alive();
            proof {
                if collide && alive_now {
                    assert(!(appears_before(self.base_touched@, nid as int, t as int)
                        && old(self).stationary_collision(*old(world), nid as int)));
                    assert(old(self).stationary_collision(*old(world), nid as int));
                    assert(self.base_first@[nid as int]
                        == old(self).base_first@[nid as int]);
                    assert(self.base_second@[nid as int]
                        == old(self).base_second@[nid as int]);
                }
            }
            if collide && alive_now {
                events.push(DestructionEvent {
                    colony: nid as u32,
                    first: self.base_first[nid],
                    second: self.base_second[nid],
                });
                let name_idx = world.nodes[nid].name_idx;
                let neighbors = world.nodes[nid].neighbors;
                world.nodes[nid] = Node { name_idx, neighbors, alive: false };
                self.base_occupancy[nid] = 0;
                self.base_first[nid] = u32::MAX;
                self.base_second[nid] = u32::MAX;
            }
            proof {
                assert forall|m: int| 0 <= m < nn implies
                    (#[trigger] world.nodes@[m]).alive == (old(world).nodes@[m].alive
                        && !(appears_before(self.base_touched@, m, t + 1)
                            && old(self).stationary_collision(*old(world), m))) by {
                    if m != nid as int {
                        assert(world.nodes@[m] == pre_nodes[m]);
                        assert(pre_nodes[m].alive == (old(world).nodes@[m].alive
                            && !(appears_before(self.base_touched@, m, t as int)
                                && old(self).stationary_collision(*old(world), m))));
                    } else {
                        if !(collide && alive_now) {
                            assert(world.nodes@[m] == pre_nodes[m]);
                            if old(self).stationary_collision(*old(world), m) {
                                if !appears_before(self.base_touched@, m, t as int) {
                                    assert(pre_bocc[m] == old(self).base_occupancy@[m]);
                                    assert(pre_nodes[m].alive == old(world).nodes@[m].alive);
                                    assert(collide && alive_now);
                                }
                            }
                        }
                    }
                }
                assert forall|m: int| 0 <= m < nn implies
                    (#[trigger] self.base_occupancy@[m])
                        == if appears_before(self.base_touched@, m, t + 1)
                            && old(self).stationary_collision(*old(world), m) {
                            0u32
                        } else {
                            old(self).base_occupancy@[m]
                        } by {
                    if m != nid as int {
                        assert(self.base_occupancy@[m] == pre_bocc[m]);
                    } else {
                        if !(collide && alive_now)
                            && old(self).stationary_collision(*old(world), m)
                            && !appears_before(self.base_touched@, m, t as int) {
                            assert(pre_bocc[m] == old(self).base_occupancy@[m]);
                            assert(pre_nodes[m].alive == old(world).nodes@[m].alive);
                            assert(false);
                        }
                    }
                }
                assert forall|m: int| 0 <= m < nn implies
                    (#[trigger] self.base_first@[m])
                        == if appears_before(self.base_touched@, m, t + 1)
                            && old(self).stationary_collision(*old(world), m) {
                            u32::MAX
                        } else {
                            old(self).base_first@[m]
                        } by {
                    if m != nid as int {
                        assert(self.base_first@[m] == pre_bfst[m]);
                    } else {
                        if !(collide && alive_now)
                            && old(self).stationary_collision(*old(world), m)
                            && !appears_before(self.base_touched@, m, t as int) {
                            assert(pre_bocc[m] == old(self).base_occupancy@[m]);
                            assert(pre_nodes[m].alive == old(world).nodes@[m].alive);
                            assert(false);
                        }
                    }
                }
                assert forall|m: int| 0 <= m < nn implies
                    (#[trigger] self.base_second@[m])
                        == if appears_before(self.base_touched@, m, t + 1)
                            && old(self).stationary_collision(*old(world), m) {
                            u32::MAX
                        } else {
                            old(self).base_second@[m]
                        } by {
                    if m != nid as int {
                        assert(self.base_second@[m] == pre_bsnd[m]);
                    } else {
                        if !(collide && alive_now)
                            && old(self).stationary_collision(*old(world), m)
                            && !appears_before(self.base_touched@, m, t as int) {
                            assert(pre_bocc[m] == old(self).base_occupancy@[m]);
                            assert(pre_nodes[m].alive == old(world).nodes@[m].alive);
                            assert(false);
                        }
                    }
                }
                assert forall|j: int| pre_events.len() <= j < events@.len() implies {
                    let e = #[trigger] events@[j];
                    &&& !world.nodes@[e.colony as int].alive
                    &&& e.first == old(self).base_first@[e.colony as int]
                    &&& e.second == old(self).base_second@[e.colony as int]
                } by {
                    if j < pre_ev2.len() {
                        assert(events@[j] == pre_ev2[j]);
                        if collide && alive_now {
                            assert(pre_ev2[j].colony as int != nid as int);
                            assert(world.nodes@[pre_ev2[j].colony as int]
                                == pre_nodes[pre_ev2[j].colony as int]);
                        } else {
                            assert(world.nodes@ == pre_nodes);
                        }
                    } else {
                        assert(collide && alive_now);
                        assert(events@[j].colony == nid as u32);
                    }
                }
                assert forall|p: int, q: int| pre_events.len() <= p < q < events@.len()
                    implies (#[trigger] events@[p]).colony
                        != (#[trigger] events@[q]).colony by {
                    if q >= pre_ev2.len() {
                        assert(collide && alive_now);
                        assert(!pre_nodes[pre_ev2[p].colony as int].alive);
                        assert(pre_nodes[nid as int].alive);
                    }
                }
                assert forall|m: int| 0 <= m < nn
                    && old(self).stationary_collision(*old(world), m)
                    && #[trigger] appears_before(self.base_touched@, m, t + 1)
                    implies exists|j: int| pre_events.len() <= j < events@.len()
                        && (#[trigger] events@[j]).colony == m by {
                    if appears_before(self.base_touched@, m, t as int) {
                        let j0 = choose|j: int| pre_events.len() <= j < pre_ev2.len()
                            && pre_ev2[j].colony == m;
                        assert(events@[j0].colony == m);
                    } else {
                        assert(m == nid as int);
                        if !(collide && alive_now) {
                            assert(pre_bocc[m] == old(self).base_occupancy@[m]);
                            assert(pre_nodes[m].alive == old(world).nodes@[m].alive);
                            assert(false);
                        }
                        assert(events@[events@.len() - 1].colony == m);
                    }
                }
            }
            t = t + 1;
        }
        proof {
            assert forall|m: int| 0 <= m < nn
                && old(self).stationary_collision(*old(world), m)
                implies #[trigger] appears_before(self.base_touched@, m, tcount as int) by {
                assert(old(self).base_touched_contains(m));
                assert(old(self).base_touched@ == self.base_touched@);
            }
        }
    }
}

} // verus!
