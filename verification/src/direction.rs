use vstd::prelude::*;

use crate::text::spells;

verus! {

/// A direction as the source text names it; `Unknown` stands for a word that
/// names none.
#[derive(Debug, PartialEq, Eq, Structural, Clone, Copy)]
pub enum Direction {
    Up,
    Down,
    Left,
    Right,
    Unknown,
}

impl Direction {
    /// The direction that `dir` names.
    pub open spec fn named(dir: Seq<char>) -> Direction {
        if dir == "up"@ {
            Direction::Up
        } else if dir == "down"@ {
            Direction::Down
        } else if dir == "left"@ {
            Direction::Left
        } else if dir == "right"@ {
            Direction::Right
        } else {
            Direction::Unknown
        }
    }

    pub fn from_str(dir: &str) -> (d: Direction)
        ensures
            d == Self::named(dir@),
    {
        if spells(dir, "up") {
            Direction::Up
        } else if spells(dir, "down") {
            Direction::Down
        } else if spells(dir, "left") {
            Direction::Left
        } else if spells(dir, "right") {
            Direction::Right
        } else {
            Direction::Unknown
        }
    }
}

} // verus!
