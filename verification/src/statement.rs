use vstd::prelude::*;

use crate::color::Color;
use crate::direction::Direction;
use crate::number::Number;

verus! {

/// An instruction as three words of the source text.
#[derive(Debug, Clone, Copy)]
pub struct Statement {
    pub color: Color,
    pub direction: Direction,
    pub number: Number,
}

impl Statement {
    pub fn new(color: Color, direction: Direction, number: Number) -> (s: Statement)
        ensures
            s.color == color,
            s.direction == direction,
            s.number == number,
    {
        Statement { color, direction, number }
    }
}

} // verus!
