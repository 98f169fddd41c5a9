use vstd::prelude::*;

use crate::utils::INVALID_NODE;

verus! {

/// Graph node: a colony with a name, up to four directed exits and a
/// liveness flag.
#[derive(Clone, Copy, Debug)]
pub struct Node {
    /// Index into the world's name table.
    pub name_idx: u32,
    /// Neighbors by direction; `INVALID_NODE` if none.
    pub neighbors: [u32; 4],
    /// Colony alive flag.
    pub alive: bool,
}

impl Node {
    /// A node as it stands right after destruction: only the alive flag
    /// differs from the argument.
    pub open spec fn destroyed_spec(n: Node) -> Node {
        Node { alive: false, ..n }
    }

    /// Create a new node with the given name index and all exits absent.
    pub fn new(name_idx: u32) -> (r: Node)
        ensures
            r.name_idx == name_idx,
            r.alive,
            forall|d: int| 0 <= d < 4 ==> r.neighbors@[d] == INVALID_NODE,
    {
        Node { name_idx, neighbors: [INVALID_NODE; 4], alive: true }
    }

    /// Set neighbor in a specific direction.
    pub fn set_neighbor(&mut self, direction_idx: usize, neighbor_id: u32)
        requires
            direction_idx < 4,
        ensures
            final(self).neighbors@ == old(self).neighbors@.update(direction_idx as int, neighbor_id),
            final(self).name_idx == old(self).name_idx,
            final(self).alive == old(self).alive,
    {
        self.neighbors[direction_idx] = neighbor_id;
    }

    /// Get neighbor in a specific direction.
    pub fn get_neighbor(&self, direction_idx: usize) -> (r: Option<u32>)
        requires
            direction_idx < 4,
        ensures
            self.neighbors@[direction_idx as int] == INVALID_NODE ==> r is None,
            self.neighbors@[direction_idx as int] != INVALID_NODE
                ==> r == Some(self.neighbors@[direction_idx as int]),
    {
        let neighbor = self.neighbors[direction_idx];
        if neighbor == INVALID_NODE {
            None
        } else {
            Some(neighbor)
        }
    }

    /// Destroy this colony.
    pub fn destroy(&mut self)
        ensures
            *final(self) == Node::destroyed_spec(*old(self)),
    {
        self.alive = false;
    }

    /// Check if colony is alive.
    pub fn is_alive(&self) -> (r: bool)
        ensures
            r == self.alive,
    {
        self.alive
    }
}

/// Destruction is permanent and idempotent: a destroyed colony is not
/// alive, and destroying it again changes nothing.
pub proof fn lemma_destroy_permanent(n: Node)
    ensures
        !Node::destroyed_spec(n).alive,
        Node::destroyed_spec(Node::destroyed_spec(n)) == Node::destroyed_spec(n),
{
}

} // verus!
