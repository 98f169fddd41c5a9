use vstd::prelude::*;

verus! {

/// Agent state: position, move counter, and the two independent
/// alive/trapped flags.
#[derive(Clone, Debug)]
pub struct Ant {
    pub pos: u32,
    pub id: u32,
    pub moves: u32,
    pub alive: bool,
    pub trapped: bool,
}

impl Ant {
    /// Create a new ant at the given position.
    pub fn new(id: u32, pos: u32) -> (r: Ant)
        ensures
            r.id == id,
            r.pos == pos,
            r.moves == 0,
            r.alive,
            !r.trapped,
    {
        Ant { id, pos, moves: 0, alive: true, trapped: false }
    }

    /// Check if ant is alive.
    pub fn is_alive(&self) -> (r: bool)
        ensures
            r == self.alive,
    {
        self.alive
    }

    /// Check if ant is trapped.
    pub fn is_trapped(&self) -> (r: bool)
        ensures
            r == self.trapped,
    {
        self.trapped
    }

    /// Set alive state.
    pub fn set_alive(&mut self, alive: bool)
        ensures
            *final(self) == (Ant { alive, ..*old(self) }),
    {
        self.alive = alive;
    }

    /// Set trapped state.
    pub fn set_trapped(&mut self, trapped: bool)
        ensures
            *final(self) == (Ant { trapped, ..*old(self) }),
    {
        self.trapped = trapped;
    }

    /// Move ant to new position and increment move counter.
    pub fn move_to(&mut self, new_pos: u32)
        requires
            old(self).moves < u32::MAX,
        ensures
            *final(self) == (Ant { pos: new_pos, moves: (old(self).moves + 1) as u32, ..*old(self) }),
    {
        self.pos = new_pos;
        self.moves = self.moves + 1;
    }

    /// Check if ant has reached maximum moves.
    pub fn has_max_moves(&self, max_moves: u32) -> (r: bool)
        ensures
            r == (self.moves >= max_moves),
    {
        self.moves >= max_moves
    }
}

} // verus!
