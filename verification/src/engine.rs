use vstd::prelude::*;

use crate::ant::Ant;
use crate::collision::{
    appears_before, count_alive_at, events_extended, nodes_frame, CollisionDetector,
    DestructionEvent,
};
use crate::world::World;

verus! {

/// Number of alive ants among the first `k`.
pub open spec fn count_alive_ants_upto(ants: Seq<Ant>, k: int) -> nat
    decreases k,
{
    if k <= 0 {
        0
    } else {
        count_alive_ants_upto(ants, k - 1) + if ants[k - 1].alive {
            1nat
        } else {
            0nat
        }
    }
}

/// Number of alive ants.
pub open spec fn count_alive_ants(ants: Seq<Ant>) -> nat {
    count_alive_ants_upto(ants, ants.len() as int)
}

/// Agent store sanity against the world: positions are valid colony ids, a
/// trapped agent is alive, and an alive agent stands at an alive colony.
pub open spec fn ants_ok(ants: Seq<Ant>, world: World) -> bool {
    forall|i: int| 0 <= i < ants.len() ==> {
        let a = #[trigger] ants[i];
        &&& a.pos < world.nodes@.len()
        &&& (a.trapped ==> a.alive)
        &&& (a.alive ==> world.nodes@[a.pos as int].alive)
    }
}

/// The agent is eligible to move: alive, not trapped, under the move limit.
pub open spec fn eligible(a: Ant, max_moves: u32) -> bool {
    a.alive && !a.trapped && a.moves < max_moves
}

/// Per-agent outcome of a run: identity kept, a dead agent is frozen, the
/// move counter never decreases and stops at the limit, death is permanent,
/// an agent trapped at the start stays trapped while it lives, a trapped
/// agent is alive, and the position stays a valid colony id.
pub open spec fn ant_evolves(was: Ant, now: Ant, max_moves: u32, node_count: int) -> bool {
    &&& now.id == was.id
    &&& now.moves >= was.moves
    &&& (now.moves > was.moves ==> now.moves <= max_moves)
    &&& (!was.alive ==> now == was)
    &&& (was.trapped && now.alive ==> now.trapped)
    &&& (now.trapped ==> now.alive)
    &&& now.pos < node_count
}

/// Main simulation engine that coordinates the whole run.
pub struct SimulationEngine;

impl SimulationEngine {
    /// Create a new simulation engine.
    pub fn new(_world: &World, _ant_count: usize) -> (r: SimulationEngine) {
        SimulationEngine
    }

    /// Run the complete simulation: the time-zero collision pass, then
    /// ticks of move decision, arrival collisions, commit and stationary
    /// collisions, until no agent can move or at most one agent lives.
    ///
    /// Returns the number of ticks run, bounded by the move limit. A colony
    /// with an exit to itself could hold two or more agents walking in
    /// place forever, so such worlds are excluded up front.
    pub fn run_simulation(
        &mut self,
        world: &mut World,
        ants: &mut Vec<Ant>,
        max_moves: u32,
        rng: &mut fastrand::Rng,
        events: &mut Vec<DestructionEvent>,
    ) -> (ticks: u64)
        requires
            old(world).wf(),
            old(world).no_self_loops(),
            ants_ok(old(ants)@, *old(world)),
            old(ants)@.len() < u32::MAX,
        ensures
            final(world).wf(),
            final(world).names == old(world).names,
            nodes_frame(old(world).nodes@, final(world).nodes@),
            forall|n: int| 0 <= n < old(world).nodes@.len() && !old(world).nodes@[n].alive
                ==> !(#[trigger] final(world).nodes@[n]).alive,
            // any colony where two or more ants start falls at time zero,
            // and every ant that starts there dies
            forall|n: int| 0 <= n < old(world).nodes@.len() && old(world).nodes@[n].alive
                && count_alive_at(old(ants)@, n) >= 2
                ==> !(#[trigger] final(world).nodes@[n]).alive,
            forall|i: int| 0 <= i < old(ants)@.len()
                && old(world).nodes@[(#[trigger] old(ants)@[i]).pos as int].alive
                && count_alive_at(old(ants)@, old(ants)@[i].pos as int) >= 2
                ==> !final(ants)@[i].alive,
            final(ants)@.len() == old(ants)@.len(),
            forall|i: int| 0 <= i < old(ants)@.len()
                ==> ant_evolves(old(ants)@[i], #[trigger] final(ants)@[i], max_moves,
                    old(world).nodes@.len() as int),
            // destruction kills every occupant: an alive agent stands at an
            // alive colony when the run ends
            forall|i: int| 0 <= i < old(ants)@.len() && (#[trigger] final(ants)@[i]).alive
                ==> final(world).nodes@[final(ants)@[i].pos as int].alive,
            events_extended(old(events)@, final(events)@),
            forall|j: int| old(events)@.len() <= j < final(events)@.len()
                ==> (#[trigger] final(events)@[j]).colony < old(world).nodes@.len()
                    && !final(world).nodes@[final(events)@[j].colony as int].alive,
            // exactly the colonies destroyed during the run are reported,
            // each exactly once
            forall|n: int| 0 <= n < old(world).nodes@.len() && old(world).nodes@[n].alive
                && !final(world).nodes@[n].alive
                ==> exists|j: int| old(events)@.len() <= j < final(events)@.len()
                    && (#[trigger] final(events)@[j]).colony == n,
            forall|j1: int, j2: int| old(events)@.len() <= j1 < j2 < final(events)@.len()
                ==> (#[trigger] final(events)@[j1]).colony
                    != (#[trigger] final(events)@[j2]).colony,
            // the loop stops only in a terminal state: at most one agent
            // lives, or no agent can still move
            count_alive_ants(final(ants)@) <= 1
                || (forall|i: int| 0 <= i < final(ants)@.len()
                    ==> !eligible(#[trigger] final(ants)@[i], max_moves)),
            ticks <= max_moves as u64,
    {
        let node_count = world.nodes.len();
        let ghost n0 = old(world).nodes@.len() as int;
        let mut detector = CollisionDetector::new(node_count);
        detector.handle_initial_collisions(world, ants, events);
        let ghost a_t0 = ants@;
        let ghost w_t0 = *world;

        proof {
            assert forall|i: int| 0 <= i < ants@.len() && (#[trigger] ants@[i]).alive
                implies world.nodes@[ants@[i].pos as int].alive by {
                assert(old(ants)@[i].alive ==> old(world).nodes@[old(ants)@[i].pos as int].alive);
            }
        }

        let ant_count = ants.len();
        let mut active: Vec<usize> = Vec::new();
        let mut i: usize = 0;
        while i < ant_count
            invariant
                i <= ant_count,
                ant_count == ants@.len(),
                max_moves <= u32::MAX,
                forall|k: int| 0 <= k < active@.len() ==> (#[trigger] active@[k]) < i,
                forall|p: int, q: int| 0 <= p < q < active@.len()
                    ==> active@[p] != active@[q],
                active@.len() <= i,
                forall|k: int| 0 <= k < active@.len()
                    ==> eligible(ants@[(#[trigger] active@[k]) as int], max_moves),
                forall|i2: int| 0 <= i2 < i && eligible(#[trigger] ants@[i2], max_moves)
                    ==> appears_before(active@, i2, active@.len() as int),
            decreases ant_count - i,
        {
            let ghost pre_active = active@;
            if ants[i].is_alive() && !ants[i].is_trapped() && ants[i].moves < max_moves {
                active.push(i);
            }
            proof {
                assert forall|i2: int| 0 <= i2 < i + 1 && eligible(#[trigger] ants@[i2], max_moves)
                    implies appears_before(active@, i2, active@.len() as int) by {
                    if i2 < i {
                        let k0 = choose|k: int| 0 <= k < pre_active.len()
                            && pre_active[k] == i2;
                        assert(active@[k0] == i2);
                    } else {
                        assert(active@[active@.len() - 1] == i2);
                    }
                }
            }
            i = i + 1;
        }

        let mut next_pos: Vec<u32> = Vec::new();
        let mut j: usize = 0;
        while j < ant_count
            invariant
                j <= ant_count,
                ant_count == ants@.len(),
                next_pos@.len() == j,
            decreases ant_count - j,
        {
            next_pos.push(ants[j].pos);
            j = j + 1;
        }
        let mut trapped_now: Vec<bool> = vec![false; ant_count];

        let mut ticks: u64 = 0;

        while !active.is_empty()
            invariant
                node_count == old(world).nodes@.len(),
                n0 == node_count as int,
                old(world).no_self_loops(),
                world.wf(),
                world.nodes@.len() == node_count,
                world.names == old(world).names,
                nodes_frame(old(world).nodes@, world.nodes@),
                forall|i3: int| 0 <= i3 < ant_count
                    ==> (#[trigger] ants@[i3]).pos < node_count,
                forall|n: int| 0 <= n < node_count && !old(world).nodes@[n].alive
                    ==> !(#[trigger] world.nodes@[n]).alive,
                forall|n: int| 0 <= n < node_count && !w_t0.nodes@[n].alive
                    ==> !(#[trigger] world.nodes@[n]).alive,
                detector.wf(node_count as int),
                ant_count == ants@.len(),
                ants@.len() == old(ants)@.len(),
                a_t0.len() == ant_count,
                ant_count < u32::MAX,
                next_pos@.len() == ant_count,
                trapped_now@.len() == ant_count,
                forall|k: int| 0 <= k < active@.len() ==> (#[trigger] active@[k]) < ant_count,
                forall|p: int, q: int| 0 <= p < q < active@.len()
                    ==> active@[p] != active@[q],
                active@.len() <= ant_count,
                forall|k: int| 0 <= k < active@.len() ==> {
                    let a = ants@[(#[trigger] active@[k]) as int];
                    eligible(a, max_moves) || (!a.alive && !a.trapped)
                },
                forall|i2: int| 0 <= i2 < ant_count && eligible(#[trigger] ants@[i2], max_moves)
                    ==> appears_before(active@, i2, active@.len() as int),
                forall|i2: int| 0 <= i2 < ant_count && (#[trigger] ants@[i2]).alive
                    ==> world.nodes@[ants@[i2].pos as int].alive,
                forall|i2: int| 0 <= i2 < ant_count
                    ==> ant_evolves(a_t0[i2], #[trigger] ants@[i2], max_moves, n0),
                forall|m: int| 0 <= m < node_count && !world.nodes@[m].alive
                    ==> (#[trigger] detector.base_occupancy@[m]) == 0,
                forall|m: int| 0 <= m < node_count
                    ==> (#[trigger] detector.base_occupancy@[m]) <= 1,
                events_extended(old(events)@, events@),
                forall|j2: int| old(events)@.len() <= j2 < events@.len()
                    ==> (#[trigger] events@[j2]).colony < node_count
                        && !world.nodes@[events@[j2].colony as int].alive,
                forall|p: int, q: int| old(events)@.len() <= p < q < events@.len()
                    ==> (#[trigger] events@[p]).colony != (#[trigger] events@[q]).colony,
                forall|n: int| 0 <= n < node_count && old(world).nodes@[n].alive
                    && !world.nodes@[n].alive
                    ==> exists|j2: int| old(events)@.len() <= j2 < events@.len()
                        && (#[trigger] events@[j2]).colony == n,
                ticks <= max_moves as u64,
                forall|k: int| 0 <= k < active@.len()
                    && ants@[(#[trigger] active@[k]) as int].alive
                    ==> ticks <= ants@[active@[k] as int].moves,
            ensures
                count_alive_ants(ants@) <= 1
                    || (forall|i3: int| 0 <= i3 < ants@.len()
                        ==> !eligible(#[trigger] ants@[i3], max_moves)),
            decreases max_moves as int - ticks as int,
        {
            // (1) Prune agents no longer eligible and decide destinations.
            let ghost w1 = *world;
            let ghost a1 = ants@;
            let ghost d1 = detector;
            let ghost e1 = events@;
            let mut i2: usize = 0;
            while i2 < active.len()
                invariant
                    *world == w1,
                    ants@ == a1,
                    detector == d1,
                    events@ == e1,
                    world.wf(),
                    world.nodes@.len() == node_count,
                    node_count == old(world).nodes@.len(),
                    nodes_frame(old(world).nodes@, world.nodes@),
                    old(world).no_self_loops(),
                    forall|i3: int| 0 <= i3 < ant_count
                        ==> (#[trigger] ants@[i3]).pos < node_count,
                    i2 <= active@.len(),
                    active@.len() <= ant_count,
                    ant_count == ants@.len(),
                    next_pos@.len() == ant_count,
                    trapped_now@.len() == ant_count,
                    max_moves <= u32::MAX,
                    forall|k: int| 0 <= k < active@.len()
                        ==> (#[trigger] active@[k]) < ant_count,
                    forall|p: int, q: int| 0 <= p < q < active@.len()
                        ==> active@[p] != active@[q],
                    forall|k: int| i2 <= k < active@.len() ==> {
                        let a = ants@[(#[trigger] active@[k]) as int];
                        eligible(a, max_moves) || (!a.alive && !a.trapped)
                    },
                    forall|i3: int| 0 <= i3 < ant_count
                        && eligible(#[trigger] ants@[i3], max_moves)
                        ==> appears_before(active@, i3, active@.len() as int),
                    forall|k: int| 0 <= k < active@.len()
                        && ants@[(#[trigger] active@[k]) as int].alive
                        ==> ticks <= ants@[active@[k] as int].moves,
                    forall|k: int| 0 <= k < i2 ==> {
                        let ai = (#[trigger] active@[k]) as int;
                        &&& eligible(ants@[ai], max_moves)
                        &&& next_pos@[ai] < node_count
                        &&& (trapped_now@[ai] ==> next_pos@[ai] == ants@[ai].pos)
                        &&& (!trapped_now@[ai] ==> next_pos@[ai] != ants@[ai].pos)
                    },
                decreases active@.len() - i2,
            {
                let ghost pre_active = active@;
                let ai = active[i2];
                let a_ok = ants[ai].is_alive() && ants[ai].moves < max_moves
                    && !ants[ai].is_trapped();
                if !a_ok {
                    active.swap_remove(i2);
                    proof {
                        assert forall|p: int, q: int| 0 <= p < q < active@.len()
                            implies active@[p] != active@[q] by {
                            assert(active@[p] == pre_active[if p == i2 {
                                pre_active.len() - 1
                            } else {
                                p
                            }]);
                            assert(active@[q] == pre_active[if q == i2 {
                                pre_active.len() - 1
                            } else {
                                q
                            }]);
                        }
                        assert forall|i3: int| 0 <= i3 < ant_count
                            && eligible(#[trigger] ants@[i3], max_moves)
                            implies appears_before(active@, i3, active@.len() as int) by {
                            let k0 = choose|k: int| 0 <= k < pre_active.len()
                                && pre_active[k] == i3;
                            assert(k0 != i2);
                            if k0 == pre_active.len() - 1 {
                                assert(active@[i2 as int] == i3);
                            } else {
                                assert(active@[k0] == i3);
                            }
                        }
                        assert forall|k: int| 0 <= k < active@.len()
                            && ants@[(#[trigger] active@[k]) as int].alive
                            implies ticks <= ants@[active@[k] as int].moves by {
                            assert(active@[k] == pre_active[if k == i2 {
                                pre_active.len() - 1
                            } else {
                                k
                            }]);
                        }
                        assert forall|k: int| i2 <= k < active@.len() implies {
                            let a = ants@[(#[trigger] active@[k]) as int];
                            eligible(a, max_moves) || (!a.alive && !a.trapped)
                        } by {
                            assert(active@[k] == pre_active[if k == i2 {
                                pre_active.len() - 1
                            } else {
                                k
                            }]);
                        }
                    }
                } else {
                    let (np, became_trapped) = world.choose_next_position(ants[ai].pos, rng);
                    proof {
                        if !became_trapped {
                            let pos = ants@[ai as int].pos as int;
                            assert(world.has_live_exit(pos));
                            let d = choose|d: int| 0 <= d < 4 && world.exit_live(pos, d)
                                && world.nodes@[pos].neighbors@[d] == np;
                            assert(world.nodes@[pos].neighbors@[d]
                                == old(world).nodes@[pos].neighbors@[d]);
                            assert(old(world).nodes@[pos].neighbors@[d] != pos);
                        }
                    }
                    next_pos[ai] = np;
                    trapped_now[ai] = became_trapped;
                    i2 = i2 + 1;
                }
            }
            if active.is_empty() {
                break;
            }
            proof {
                assert(eligible(ants@[active@[0] as int], max_moves));
                assert(ticks <= ants@[active@[0] as int].moves);
            }
            ticks = ticks.saturating_add(1);

            // (2) + (3) Build occupancy and destroy collided colonies.
            let ghost w3 = *world;
            let ghost e3 = events@;
            let ghost d3 = detector;
            detector.process_collisions(world, ants, &active, &next_pos, events);
            proof {
                assert forall|n: int| 0 <= n < node_count && old(world).nodes@[n].alive
                    && !world.nodes@[n].alive
                    implies exists|j2: int| old(events)@.len() <= j2 < events@.len()
                        && (#[trigger] events@[j2]).colony == n by {
                    if w3.nodes@[n].alive {
                        assert(d3.tick_collision(w3, ants@, active@, next_pos@, n));
                        let j0 = choose|j2: int| e3.len() <= j2 < events@.len()
                            && events@[j2].colony == n;
                        assert(old(events)@.len() <= j0 < events@.len()
                            && events@[j0].colony == n);
                    } else {
                        let j0 = choose|j2: int| old(events)@.len() <= j2 < e3.len()
                            && e3[j2].colony == n;
                        assert(events@[j0] == e3[j0]);
                    }
                }
                assert forall|j2: int| old(events)@.len() <= j2 < events@.len()
                    implies (#[trigger] events@[j2]).colony < node_count
                        && !world.nodes@[events@[j2].colony as int].alive by {
                    if j2 < e3.len() {
                        assert(events@[j2] == e3[j2]);
                        assert(!w3.nodes@[e3[j2].colony as int].alive);
                    } else {
                        assert(d3.tick_collision(w3, ants@, active@, next_pos@,
                            events@[j2].colony as int));
                    }
                }
                assert forall|p: int, q: int| old(events)@.len() <= p < q < events@.len()
                    implies (#[trigger] events@[p]).colony
                        != (#[trigger] events@[q]).colony by {
                    if q >= e3.len() && p < e3.len() {
                        assert(!w3.nodes@[e3[p].colony as int].alive);
                        assert(d3.tick_collision(w3, ants@, active@, next_pos@,
                            events@[q].colony as int));
                        assert(w3.nodes@[events@[q].colony as int].alive);
                    }
                }
            }

            // (4) Commit agent state and register new stationaries.
            let ghost w4 = *world;
            let ghost a4 = ants@;
            let ghost e4 = events@;
            let ghost pre_len = active@.len();
            let ghost pre_base = detector.base_occupancy@;
            let mut j2: usize = 0;
            while j2 < active.len()
                invariant
                    *world == w4,
                    events@ == e4,
                    world.wf(),
                    world.nodes@.len() == node_count,
                    node_count == old(world).nodes@.len(),
                    n0 == node_count as int,
                    detector.wf(node_count as int),
                    j2 <= active@.len(),
                    active@.len() <= pre_len,
                    pre_len <= ant_count,
                    ant_count == ants@.len(),
                    ants@.len() == old(ants)@.len(),
                    a_t0.len() == ant_count,
                    ant_count < u32::MAX,
                    next_pos@.len() == ant_count,
                    trapped_now@.len() == ant_count,
                    max_moves <= u32::MAX,
                    forall|k: int| 0 <= k < active@.len()
                        ==> (#[trigger] active@[k]) < ant_count,
                    forall|p: int, q: int| 0 <= p < q < active@.len()
                        ==> active@[p] != active@[q],
                    // unprocessed entries: untouched this commit, eligible,
                    // with their step-one buffers intact
                    forall|k: int| j2 <= k < active@.len() ==> {
                        let ai = (#[trigger] active@[k]) as int;
                        &&& ants@[ai] == a4[ai]
                        &&& eligible(ants@[ai], max_moves)
                        &&& next_pos@[ai] < node_count
                        &&& (trapped_now@[ai] ==> next_pos@[ai] == ants@[ai].pos)
                        &&& (!trapped_now@[ai] ==> next_pos@[ai] != ants@[ai].pos)
                        &&& ticks <= ants@[ai].moves + 1
                    },
                    // processed entries that stayed active: eligible again
                    forall|k: int| 0 <= k < j2 ==> {
                        let a = ants@[(#[trigger] active@[k]) as int];
                        &&& eligible(a, max_moves)
                        &&& ticks <= a.moves
                    },
                    forall|i3: int| 0 <= i3 < ant_count
                        && eligible(#[trigger] ants@[i3], max_moves)
                        ==> appears_before(active@, i3, active@.len() as int),
                    forall|i3: int| 0 <= i3 < ant_count
                        ==> ant_evolves(a_t0[i3], #[trigger] ants@[i3], max_moves, n0),
                    forall|i3: int| 0 <= i3 < ant_count
                        ==> (#[trigger] ants@[i3]).pos < node_count,
                    forall|m: int| 0 <= m < node_count && !world.nodes@[m].alive
                        ==> (#[trigger] detector.base_occupancy@[m]) == 0,
                    forall|m: int| 0 <= m < node_count
                        && (#[trigger] detector.base_occupancy@[m]) >= 2
                        ==> detector.base_touched_contains(m),
                    forall|m: int| 0 <= m < node_count
                        ==> (#[trigger] detector.base_occupancy@[m]) as int
                            <= 1 + j2 + (pre_len - active@.len()),
                decreases active@.len() - j2,
            {
                let ghost pre_active = active@;
                let ghost pre_ants = ants@;
                let ghost pre_det = detector;
                let ghost j2_pre = j2;
                let ai = active[j2];
                let nid_u32 = next_pos[ai];
                let nid = nid_u32 as usize;
                let node_alive = world.nodes[nid].is_alive();

                if !ants[ai].is_alive() {
                    // cannot happen for an eligible agent; kept as a guard
                    active.swap_remove(j2);
                } else if !node_alive {
                    // destination destroyed this tick: the agent dies
                    let pos = ants[ai].pos;
                    let id = ants[ai].id;
                    let moves = ants[ai].moves;
                    ants[ai] = Ant { pos, id, moves, alive: false, trapped: false };
                    active.swap_remove(j2);
                } else if !trapped_now[ai] && nid_u32 != ants[ai].pos {
                    let id = ants[ai].id;
                    let moves = ants[ai].moves;
                    ants[ai] = Ant {
                        pos: nid_u32,
                        id,
                        moves: moves + 1,
                        alive: true,
                        trapped: false,
                    };
                    if moves + 1 >= max_moves {
                        // stationary by move exhaustion
                        detector.add_stationary_ant(nid, id);
                        active.swap_remove(j2);
                    } else {
                        j2 = j2 + 1;
                    }
                } else if trapped_now[ai] && !ants[ai].is_trapped() {
                    // stationary by entrapment
                    let pos = ants[ai].pos;
                    let id = ants[ai].id;
                    let moves = ants[ai].moves;
                    ants[ai] = Ant { pos, id, moves, alive: true, trapped: true };
                    detector.add_stationary_ant(nid, id);
                    active.swap_remove(j2);
                } else {
                    j2 = j2 + 1;
                }
                proof {
                    assert forall|m: int| 0 <= m < node_count
                        && (#[trigger] detector.base_occupancy@[m]) >= 2
                        implies detector.base_touched_contains(m) by {
                        if pre_det.base_occupancy@[m] >= 2 {
                            let i0 = choose|idx: int| 0 <= idx
                                < pre_det.base_touched@.len()
                                && pre_det.base_touched@[idx] == m;
                            assert(detector.base_touched@[i0] == m);
                        } else {
                            assert(detector.base_touched@[detector.base_touched@.len() - 1]
                                == m);
                        }
                    }
                    if active@.len() < pre_active.len() {
                        assert forall|p: int, q: int| 0 <= p < q < active@.len()
                            implies active@[p] != active@[q] by {
                            assert(active@[p] == pre_active[if p == j2_pre {
                                pre_active.len() - 1
                            } else {
                                p
                            }]);
                            assert(active@[q] == pre_active[if q == j2_pre {
                                pre_active.len() - 1
                            } else {
                                q
                            }]);
                        }
                    }
                    assert forall|i3: int| 0 <= i3 < ant_count
                        && eligible(#[trigger] ants@[i3], max_moves)
                        implies appears_before(active@, i3, active@.len() as int) by {
                        if i3 == ai as int {
                            assert(active@.len() == pre_active.len());
                            assert(active@[j2_pre as int] == i3);
                        } else {
                            assert(ants@[i3] == pre_ants[i3]);
                            let k0 = choose|k: int| 0 <= k < pre_active.len()
                                && pre_active[k] == i3;
                            assert(k0 != j2_pre);
                            if active@.len() < pre_active.len() {
                                if k0 == pre_active.len() - 1 {
                                    assert(active@[j2_pre as int] == i3);
                                } else {
                                    assert(active@[k0] == i3);
                                }
                            } else {
                                assert(active@[k0] == i3);
                            }
                        }
                    }
                }
            }

            // (5) Pure-stationary destruction.
            let ghost pre5_base = detector.base_occupancy@;
            let ghost pre5_det = detector;
            let ghost pre5_world = *world;
            let ghost e5 = events@;
            detector.process_stationary_collisions(world, events);
            proof {
                assert forall|m: int| 0 <= m < node_count implies
                    (#[trigger] detector.base_occupancy@[m]) <= 1
                        && (!world.nodes@[m].alive ==> detector.base_occupancy@[m] == 0) by {
                    if pre5_det.stationary_collision(pre5_world, m) {
                        assert(detector.base_occupancy@[m] == 0);
                    } else {
                        assert(detector.base_occupancy@[m] == pre5_base[m]);
                        if pre5_base[m] >= 2 {
                            assert(pre5_det.base_touched_contains(m));
                            if pre5_world.nodes@[m].alive {
                                assert(false);
                            }
                        }
                        if !world.nodes@[m].alive {
                            assert(!pre5_world.nodes@[m].alive);
                        }
                    }
                }
                assert forall|n: int| 0 <= n < node_count && old(world).nodes@[n].alive
                    && !world.nodes@[n].alive
                    implies exists|j3: int| old(events)@.len() <= j3 < events@.len()
                        && (#[trigger] events@[j3]).colony == n by {
                    if pre5_world.nodes@[n].alive {
                        assert(pre5_det.stationary_collision(pre5_world, n));
                        let j0 = choose|j3: int| e5.len() <= j3 < events@.len()
                            && events@[j3].colony == n;
                        assert(old(events)@.len() <= j0 < events@.len()
                            && events@[j0].colony == n);
                    } else {
                        let j0 = choose|j3: int| old(events)@.len() <= j3 < e5.len()
                            && e5[j3].colony == n;
                        assert(events@[j0] == e5[j0]);
                    }
                }
                assert forall|j3: int| old(events)@.len() <= j3 < events@.len()
                    implies (#[trigger] events@[j3]).colony < node_count
                        && !world.nodes@[events@[j3].colony as int].alive by {
                    if j3 < e5.len() {
                        assert(events@[j3] == e5[j3]);
                        assert(!pre5_world.nodes@[e5[j3].colony as int].alive);
                    } else {
                        assert(pre5_det.stationary_collision(pre5_world,
                            events@[j3].colony as int));
                    }
                }
                assert forall|p: int, q: int| old(events)@.len() <= p < q < events@.len()
                    implies (#[trigger] events@[p]).colony
                        != (#[trigger] events@[q]).colony by {
                    if q >= e5.len() && p < e5.len() {
                        assert(!pre5_world.nodes@[e5[p].colony as int].alive);
                        assert(pre5_det.stationary_collision(pre5_world,
                            events@[q].colony as int));
                        assert(pre5_world.nodes@[events@[q].colony as int].alive);
                    }
                }
            }

            // (5b) Destruction kills every occupant: an agent left standing
            // at a colony that fell this tick dies with it.
            let ghost a5 = ants@;
            let mut s: usize = 0;
            while s < ant_count
                invariant
                    s <= ant_count,
                    ant_count == ants@.len(),
                    a_t0.len() == ant_count,
                    node_count == old(world).nodes@.len(),
                    n0 == node_count as int,
                    world.nodes@.len() == node_count,
                    max_moves <= u32::MAX,
                    forall|i3: int| 0 <= i3 < ant_count
                        ==> (#[trigger] ants@[i3]).pos < node_count,
                    forall|i3: int| s <= i3 < ant_count
                        ==> (#[trigger] ants@[i3]) == a5[i3],
                    forall|i3: int| 0 <= i3 < s ==> {
                        let was = a5[i3];
                        (#[trigger] ants@[i3]) == if was.alive
                            && !world.nodes@[was.pos as int].alive {
                            Ant { alive: false, trapped: false, ..was }
                        } else {
                            was
                        }
                    },
                    forall|i3: int| 0 <= i3 < s && (#[trigger] ants@[i3]).alive
                        ==> world.nodes@[ants@[i3].pos as int].alive,
                decreases ant_count - s,
            {
                if ants[s].is_alive() {
                    let pos = ants[s].pos;
                    if !world.nodes[pos as usize].is_alive() {
                        let id = ants[s].id;
                        let moves = ants[s].moves;
                        ants[s] = Ant { pos, id, moves, alive: false, trapped: false };
                    }
                }
                s = s + 1;
            }
            proof {
                assert forall|i3: int| 0 <= i3 < ant_count
                    implies ant_evolves(a_t0[i3], #[trigger] ants@[i3], max_moves, n0) by {
                    assert(ant_evolves(a_t0[i3], a5[i3], max_moves, n0));
                }
                assert forall|i3: int| 0 <= i3 < ant_count
                    && eligible(#[trigger] ants@[i3], max_moves)
                    implies appears_before(active@, i3, active@.len() as int) by {
                    assert(ants@[i3] == a5[i3]);
                    assert(eligible(a5[i3], max_moves));
                }
                assert forall|k: int| 0 <= k < active@.len() implies {
                    let a = ants@[(#[trigger] active@[k]) as int];
                    (eligible(a, max_moves) || (!a.alive && !a.trapped))
                        && (a.alive ==> ticks <= a.moves)
                } by {
                    let ai3 = active@[k] as int;
                    assert(eligible(a5[ai3], max_moves));
                    assert(ticks <= a5[ai3].moves);
                }
            }

            // (6) Early exit: with at most one alive ant no collision can
            // happen any more.
            let mut alive_ants: usize = 0;
            let mut c: usize = 0;
            let ghost w6 = *world;
            let ghost a6 = ants@;
            let ghost d6 = detector;
            let ghost e6 = events@;
            let ghost active6 = active@;
            while c < ant_count
                invariant
                    *world == w6,
                    ants@ == a6,
                    detector == d6,
                    events@ == e6,
                    active@ == active6,
                    c <= ant_count,
                    ant_count == ants@.len(),
                    alive_ants == count_alive_ants_upto(ants@, c as int),
                    alive_ants <= c,
                decreases ant_count - c,
            {
                if ants[c].is_alive() {
                    alive_ants = alive_ants + 1;
                }
                c = c + 1;
            }
            if alive_ants <= 1 {
                proof {
                    assert(count_alive_ants(ants@) <= 1);
                }
                break;
            }
        }
        proof {
            assert forall|n: int| 0 <= n < node_count && old(world).nodes@[n].alive
                && count_alive_at(old(ants)@, n) >= 2
                implies !(#[trigger] world.nodes@[n]).alive by {
                assert(!w_t0.nodes@[n].alive);
            }
            assert forall|i3: int| 0 <= i3 < ant_count
                implies ant_evolves(old(ants)@[i3], #[trigger] ants@[i3], max_moves, n0) by {
                let was = old(ants)@[i3];
                if old(world).nodes@[was.pos as int].alive
                    && count_alive_at(old(ants)@, was.pos as int) >= 2 {
                    assert(a_t0[i3] == Ant { alive: false, trapped: false, ..was });
                    assert(ants@[i3] == a_t0[i3]);
                } else {
                    assert(a_t0[i3] == was);
                }
            }
            assert forall|i3: int| 0 <= i3 < ant_count
                && old(world).nodes@[(#[trigger] old(ants)@[i3]).pos as int].alive
                && count_alive_at(old(ants)@, old(ants)@[i3].pos as int) >= 2
                implies !ants@[i3].alive by {
                assert(!a_t0[i3].alive);
                assert(ants@[i3] == a_t0[i3]);
            }
        }
        ticks
    }
}

} // verus!
