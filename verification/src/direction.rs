use vstd::prelude::*;

use crate::error::ParseError;
use crate::utils::str_eq;

verus! {

/// The four exit directions of a colony, in their fixed enumeration order.
#[derive(Clone, Copy, Debug, PartialEq, Eq, Structural)]
pub enum Direction {
    North,
    South,
    East,
    West,
}

impl Direction {
    /// All four directions, in enumeration order.
    pub const ALL: [Direction; 4] = [
        Direction::North,
        Direction::South,
        Direction::East,
        Direction::West,
    ];

    /// Position of the direction in the fixed enumeration.
    pub open spec fn index_spec(self) -> int {
        match self {
            Direction::North => 0,
            Direction::South => 1,
            Direction::East => 2,
            Direction::West => 3,
        }
    }

    /// The direction's lower-case name, as the map format writes it.
    pub open spec fn name_spec(self) -> Seq<char> {
        match self {
            Direction::North => "north"@,
            Direction::South => "south"@,
            Direction::East => "east"@,
            Direction::West => "west"@,
        }
    }

    /// The direction standing at a given position of the enumeration.
    pub open spec fn from_index_spec(d: int) -> Direction {
        if d == 0 {
            Direction::North
        } else if d == 1 {
            Direction::South
        } else if d == 2 {
            Direction::East
        } else {
            Direction::West
        }
    }

    /// Direction from its position in the fixed enumeration.
    pub fn from_index(d: usize) -> (r: Direction)
        requires
            d < 4,
        ensures
            r == Direction::from_index_spec(d as int),
            r.index_spec() == d,
    {
        if d == 0 {
            Direction::North
        } else if d == 1 {
            Direction::South
        } else if d == 2 {
            Direction::East
        } else {
            Direction::West
        }
    }

    /// Get direction index for array indexing.
    pub fn index(self) -> (r: usize)
        ensures
            r == self.index_spec(),
            r < 4,
    {
        match self {
            Direction::North => 0,
            Direction::South => 1,
            Direction::East => 2,
            Direction::West => 3,
        }
    }

    /// Get direction name as string.
    pub fn as_str(self) -> (r: &'static str)
        ensures
            r@ == self.name_spec(),
    {
        match self {
            Direction::North => "north",
            Direction::South => "south",
            Direction::East => "east",
            Direction::West => "west",
        }
    }
}

/// Parses a direction token: exactly the four lower-case names are accepted.
pub fn parse_direction(s: &str) -> (r: Result<Direction, ParseError>)
    ensures
        match r {
            Ok(d) => s@ == d.name_spec(),
            Err(e) => {
                &&& forall|d: Direction| s@ != d.name_spec()
                &&& e matches ParseError::InvalidDirection(t) && t@ == s@
            },
        },
{
    if str_eq(s, "north") {
        Ok(Direction::North)
    } else if str_eq(s, "south") {
        Ok(Direction::South)
    } else if str_eq(s, "east") {
        Ok(Direction::East)
    } else if str_eq(s, "west") {
        Ok(Direction::West)
    } else {
        proof {
            assert forall|d: Direction| s@ != d.name_spec() by {
                match d {
                    Direction::North => assert(s@ != "north"@),
                    Direction::South => assert(s@ != "south"@),
                    Direction::East => assert(s@ != "east"@),
                    Direction::West => assert(s@ != "west"@),
                }
            }
        }
        Err(ParseError::InvalidDirection(s.to_owned()))
    }
}

impl core::str::FromStr for Direction {
    type Err = ParseError;

    fn from_str(s: &str) -> Result<Direction, ParseError> {
        parse_direction(s)
    }
}

} // verus!
