use vstd::prelude::*;

use crate::ant::Ant;
use crate::node::Node;
use crate::rng::rng_below;
use crate::utils::INVALID_NODE;

verus! {

/// Number of alive nodes in the sequence.
pub open spec fn count_alive(nodes: Seq<Node>) -> nat
    decreases nodes.len(),
{
    if nodes.len() == 0 {
        0
    } else {
        count_alive(nodes.drop_last()) + if nodes.last().alive {
            1nat
        } else {
            0nat
        }
    }
}

/// The world: a name table and the colony graph over it.
#[derive(Clone, Debug)]
pub struct World {
    pub names: Vec<String>,
    pub nodes: Vec<Node>,
}

impl World {
    /// Well-formedness: every name index points into the name table, every
    /// exit is absent or points to a valid colony id, and ids fit in `u32`.
    pub open spec fn wf(self) -> bool {
        &&& self.nodes@.len() <= u32::MAX
        &&& forall|i: int| 0 <= i < self.nodes@.len()
                ==> (#[trigger] self.nodes@[i]).name_idx < self.names@.len()
        &&& forall|i: int, d: int| 0 <= i < self.nodes@.len() && 0 <= d < 4
                ==> (#[trigger] self.nodes@[i].neighbors@[d]) == INVALID_NODE
                    || self.nodes@[i].neighbors@[d] < self.nodes@.len()
    }

    /// The exit of colony `pos` in direction `d` exists and leads to a
    /// currently alive colony.
    pub open spec fn exit_live(self, pos: int, d: int) -> bool {
        let nb = self.nodes@[pos].neighbors@[d];
        &&& nb != INVALID_NODE
        &&& nb < self.nodes@.len()
        &&& self.nodes@[nb as int].alive
    }

    /// Colony `pos` has at least one live exit.
    pub open spec fn has_live_exit(self, pos: int) -> bool {
        exists|d: int| 0 <= d < 4 && self.exit_live(pos, d)
    }

    /// No colony has an exit leading back to itself.
    pub open spec fn no_self_loops(self) -> bool {
        forall|i: int, d: int| 0 <= i < self.nodes@.len() && 0 <= d < 4
            ==> (#[trigger] self.nodes@[i].neighbors@[d]) != i
    }

    /// `id` is where some live exit of `pos` among the first `dmax`
    /// directions leads.
    pub open spec fn live_exit_among(self, pos: int, dmax: int, id: u32) -> bool {
        exists|d: int| 0 <= d < dmax && self.exit_live(pos, d)
            && self.nodes@[pos].neighbors@[d] == id
    }

    /// Create a new world from names and nodes.
    pub fn new(names: Vec<String>, nodes: Vec<Node>) -> (r: World)
        ensures
            r.names == names,
            r.nodes == nodes,
    {
        World { names, nodes }
    }

    /// Get a node by id.
    pub fn node(&self, idx: u32) -> (r: Option<&Node>)
        ensures
            match r {
                Some(n) => idx < self.nodes@.len() && *n == self.nodes@[idx as int],
                None => idx >= self.nodes@.len(),
            },
    {
        if (idx as usize) < self.nodes.len() {
            Some(&self.nodes[idx as usize])
        } else {
            None
        }
    }

    /// Get a mutable node by id.
    pub fn node_mut(&mut self, idx: u32) -> (r: Option<&mut Node>)
        ensures
            match r {
                Some(n) => {
                    &&& idx < old(self).nodes@.len()
                    &&& *n == old(self).nodes@[idx as int]
                    &&& final(self).names == old(self).names
                    &&& final(self).nodes@ == old(self).nodes@.update(idx as int, *final(n))
                },
                None => idx >= old(self).nodes@.len() && *final(self) == *old(self),
            },
    {
        if (idx as usize) < self.nodes.len() {
            Some(&mut self.nodes[idx as usize])
        } else {
            None
        }
    }

    /// Place ants uniformly at alive nodes.
    pub fn create_ants(&self, count: usize, rng: &mut fastrand::Rng) -> (r: Vec<Ant>)
        requires
            self.wf(),
            count <= u32::MAX,
            count > 0 ==> exists|i: int| 0 <= i < self.nodes@.len() && self.nodes@[i].alive,
        ensures
            r@.len() == count,
            forall|k: int| 0 <= k < count ==> {
                let a = #[trigger] r@[k];
                &&& a.id == k
                &&& a.moves == 0
                &&& a.alive
                &&& !a.trapped
                &&& a.pos < self.nodes@.len()
                &&& self.nodes@[a.pos as int].alive
            },
    {
        let n = self.nodes.len();
        let mut alive_nodes: Vec<u32> = Vec::new();
        let mut i: usize = 0;
        while i < n
            invariant
                self.wf(),
                i <= n,
                n == self.nodes@.len(),
                forall|k: int| 0 <= k < alive_nodes@.len()
                    ==> (#[trigger] alive_nodes@[k]) < n && self.nodes@[alive_nodes@[k] as int].alive,
                forall|j: int| 0 <= j < i && (#[trigger] self.nodes@[j]).alive
                    ==> exists|k: int| 0 <= k < alive_nodes@.len() && alive_nodes@[k] == j,
            decreases n - i,
        {
            let ghost pre = alive_nodes@;
            if self.nodes[i].is_alive() {
                alive_nodes.push(i as u32);
            }
            proof {
                assert forall|j: int| 0 <= j < i + 1 && (#[trigger] self.nodes@[j]).alive
                    implies exists|k: int| 0 <= k < alive_nodes@.len() && alive_nodes@[k] == j by {
                    if j < i {
                        let k0 = choose|k: int| 0 <= k < pre.len() && pre[k] == j;
                        assert(alive_nodes@[k0] == j);
                    } else {
                        assert(alive_nodes@[alive_nodes@.len() - 1] == j);
                    }
                }
            }
            i = i + 1;
        }
        let alive_len = alive_nodes.len();
        let mut ants: Vec<Ant> = Vec::new();
        let mut j: usize = 0;
        while j < count
            invariant
                self.wf(),
                j <= count,
                count <= u32::MAX,
                ants@.len() == j,
                alive_len == alive_nodes@.len(),
                count > 0 ==> alive_len > 0,
                forall|k: int| 0 <= k < alive_nodes@.len()
                    ==> (#[trigger] alive_nodes@[k]) < self.nodes@.len()
                        && self.nodes@[alive_nodes@[k] as int].alive,
                forall|k: int| 0 <= k < j ==> {
                    let a = #[trigger] ants@[k];
                    &&& a.id == k
                    &&& a.moves == 0
                    &&& a.alive
                    &&& !a.trapped
                    &&& a.pos < self.nodes@.len()
                    &&& self.nodes@[a.pos as int].alive
                },
            decreases count - j,
        {
            let pos = alive_nodes[rng_below(rng, alive_len)];
            ants.push(Ant::new(j as u32, pos));
            j = j + 1;
        }
        ants
    }

    /// Choose next position for an ant, returns (new position, trapped).
    ///
    /// With no live exit the ant stays and is trapped; otherwise one of the
    /// currently live exits is drawn at random. Callers normally hand in a
    /// live colony; the rule itself only reads the exits and does not
    /// re-check liveness.
    pub fn choose_next_position(&self, ant_pos: u32, rng: &mut fastrand::Rng) -> (r: (u32, bool))
        requires
            self.wf(),
            ant_pos < self.nodes@.len(),
        ensures
            !self.has_live_exit(ant_pos as int) ==> r == (ant_pos, true),
            self.has_live_exit(ant_pos as int) ==> !r.1 && r.0 < self.nodes@.len()
                && self.nodes@[r.0 as int].alive
                && self.live_exit_among(ant_pos as int, 4, r.0),
    {
        let mut opts: Vec<u32> = Vec::new();
        let mut d: usize = 0;
        while d < 4
            invariant
                self.wf(),
                d <= 4,
                ant_pos < self.nodes@.len(),
                forall|k: int| 0 <= k < opts@.len()
                    ==> self.live_exit_among(ant_pos as int, d as int, #[trigger] opts@[k]),
                forall|dd: int| 0 <= dd < d && self.exit_live(ant_pos as int, dd)
                    ==> opts@.len() > 0,
            decreases 4 - d,
        {
            let ghost pre = opts@;
            let nb = self.nodes[ant_pos as usize].neighbors[d];
            if nb != INVALID_NODE {
                if self.nodes[nb as usize].is_alive() {
                    opts.push(nb);
                    proof {
                        assert(self.exit_live(ant_pos as int, d as int));
                    }
                }
            }
            proof {
                assert forall|k: int| 0 <= k < opts@.len()
                    implies self.live_exit_among(ant_pos as int, d + 1, #[trigger] opts@[k]) by {
                    if k < pre.len() {
                        assert(self.live_exit_among(ant_pos as int, d as int, pre[k]));
                        let dd0 = choose|dd: int| 0 <= dd < d
                            && self.exit_live(ant_pos as int, dd)
                            && self.nodes@[ant_pos as int].neighbors@[dd] == pre[k];
                        assert(opts@[k] == pre[k]);
                        assert(0 <= dd0 < d + 1 && self.exit_live(ant_pos as int, dd0)
                            && self.nodes@[ant_pos as int].neighbors@[dd0] == opts@[k]);
                    } else {
                        assert(opts@[k] == nb);
                        assert(0 <= d < d + 1 && self.exit_live(ant_pos as int, d as int)
                            && self.nodes@[ant_pos as int].neighbors@[d as int] == opts@[k]);
                    }
                }
            }
            d = d + 1;
        }
        if opts.len() == 0 {
            proof {
                assert(!self.has_live_exit(ant_pos as int));
            }
            (ant_pos, true)
        } else {
            let k = rng_below(rng, opts.len());
            let chosen = opts[k];
            proof {
                assert(self.live_exit_among(ant_pos as int, 4, chosen));
            }
            (chosen, false)
        }
    }

    /// Whether any colony has an exit leading back to itself. An agent on
    /// such a colony can walk in place without spending moves, so the
    /// simulation loop is proved to terminate only on worlds without them.
    pub fn has_self_loop(&self) -> (r: bool)
        requires
            self.wf(),
        ensures
            r == !self.no_self_loops(),
    {
        let n = self.nodes.len();
        let mut i: usize = 0;
        while i < n
            invariant
                i <= n,
                n == self.nodes@.len(),
                n <= u32::MAX,
                forall|i2: int, d: int| 0 <= i2 < i && 0 <= d < 4
                    ==> (#[trigger] self.nodes@[i2].neighbors@[d]) != i2,
            decreases n - i,
        {
            let mut d: usize = 0;
            while d < 4
                invariant
                    i < n,
                    d <= 4,
                    n == self.nodes@.len(),
                    n <= u32::MAX,
                    forall|d2: int| 0 <= d2 < d
                        ==> (#[trigger] self.nodes@[i as int].neighbors@[d2]) != i,
                decreases 4 - d,
            {
                if self.nodes[i].neighbors[d] == i as u32 {
                    proof {
                        assert(self.nodes@[i as int].neighbors@[d as int] == i);
                        assert(!self.no_self_loops());
                    }
                    return true;
                }
                d = d + 1;
            }
            i = i + 1;
        }
        false
    }

    /// Count surviving colonies.
    pub fn count_survivors(&self) -> (r: usize)
        ensures
            r == count_alive(self.nodes@),
    {
        let n = self.nodes.len();
        let mut count: usize = 0;
        let mut i: usize = 0;
        while i < n
            invariant
                i <= n,
                n == self.nodes@.len(),
                count == count_alive(self.nodes@.take(i as int)),
                count <= i,
            decreases n - i,
        {
            proof {
                assert(self.nodes@.take(i + 1).drop_last() =~= self.nodes@.take(i as int));
                assert(self.nodes@.take(i + 1).last() == self.nodes@[i as int]);
            }
            if self.nodes[i].is_alive() {
                count = count + 1;
            }
            i = i + 1;
        }
        proof {
            assert(self.nodes@.take(n as int) =~= self.nodes@);
        }
        count
    }

    /// Text of the exit of colony `i` in direction `d`, as the input format
    /// writes it; empty unless the exit exists and leads to a live colony.
    pub open spec fn exit_segment(self, i: int, d: int) -> Seq<char> {
        if self.exit_live(i, d) {
            " "@ + crate::direction::Direction::from_index_spec(d).name_spec() + "="@
                + self.names@[self.nodes@[self.nodes@[i].neighbors@[d] as int].name_idx as int]@
        } else {
            Seq::<char>::empty()
        }
    }

    /// The exit segments of colony `i` for the first `dmax` directions.
    pub open spec fn segments_upto(self, i: int, dmax: int) -> Seq<char>
        decreases dmax,
    {
        if dmax <= 0 {
            Seq::<char>::empty()
        } else {
            self.segments_upto(i, dmax - 1) + self.exit_segment(i, dmax - 1)
        }
    }

    /// The line the reporter writes for colony `i`: its name, then its live
    /// exits in direction order.
    pub open spec fn node_line(self, i: int) -> Seq<char> {
        self.names@[self.nodes@[i].name_idx as int]@ + self.segments_upto(i, 4) + "\n"@
    }

    /// The rendering of the surviving world, over the first `k` colonies:
    /// one line per live colony, in id order.
    pub open spec fn rendered_upto(self, k: int) -> Seq<char>
        decreases k,
    {
        if k <= 0 {
            Seq::<char>::empty()
        } else {
            self.rendered_upto(k - 1) + if self.nodes@[k - 1].alive {
                self.node_line(k - 1)
            } else {
                Seq::<char>::empty()
            }
        }
    }

    /// Render the remaining world in the input format: for every live
    /// colony one line with its name and its live exits in direction order.
    pub fn format_world(&self) -> (r: String)
        requires
            self.wf(),
        ensures
            r@ == self.rendered_upto(self.nodes@.len() as int),
    {
        let n = self.nodes.len();
        let mut out = String::new();
        let mut i: usize = 0;
        while i < n
            invariant
                self.wf(),
                i <= n,
                n == self.nodes@.len(),
                out@ == self.rendered_upto(i as int),
            decreases n - i,
        {
            let ghost line_start = out@;
            if self.nodes[i].is_alive() {
                out.append(self.names[self.nodes[i].name_idx as usize].as_str());
                let mut d: usize = 0;
                while d < 4
                    invariant
                        self.wf(),
                        i < n,
                        d <= 4,
                        n == self.nodes@.len(),
                        out@ == line_start + self.names@[self.nodes@[i as int].name_idx as int]@
                            + self.segments_upto(i as int, d as int),
                    decreases 4 - d,
                {
                    let nb = self.nodes[i].neighbors[d];
                    if nb != INVALID_NODE {
                        if self.nodes[nb as usize].is_alive() {
                            out.append(" ");
                            out.append(crate::direction::Direction::from_index(d).as_str());
                            out.append("=");
                            out.append(
                                self.names[self.nodes[nb as usize].name_idx as usize].as_str(),
                            );
                            proof {
                                assert(self.exit_live(i as int, d as int));
                            }
                        }
                    }
                    proof {
                        assert(self.segments_upto(i as int, d + 1)
                            == self.segments_upto(i as int, d as int)
                                + self.exit_segment(i as int, d as int));
                        assert(out@ =~= line_start
                            + self.names@[self.nodes@[i as int].name_idx as int]@
                            + self.segments_upto(i as int, d + 1));
                    }
                    d = d + 1;
                }
                out.append("\n");
            }
            proof {
                assert(self.rendered_upto(i + 1) == self.rendered_upto(i as int)
                    + if self.nodes@[i as int].alive {
                        self.node_line(i as int)
                    } else {
                        Seq::<char>::empty()
                    });
                assert(out@ =~= self.rendered_upto(i + 1));
            }
            i = i + 1;
        }
        out
    }

    /// Build the textual rendering of the remaining world. The reporter of
    /// record keeps its output suppressed, so the text is dropped; see
    /// `format_world` for the text itself.
    pub fn print_world(&self)
        requires
            self.wf(),
    {
        let _rendered = self.format_world();
    }

    /// Get the name of a colony by node id.
    pub fn get_colony_name(&self, node_id: u32) -> (r: &str)
        requires
            self.wf(),
            node_id < self.nodes@.len(),
        ensures
            r@ == self.names@[self.nodes@[node_id as int].name_idx as int]@,
    {
        self.names[self.nodes[node_id as usize].name_idx as usize].as_str()
    }
}

} // verus!
