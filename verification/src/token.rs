use vstd::prelude::*;

use crate::color::Color;
use crate::direction::Direction;
use crate::number::Number;

verus! {

/// A word of the source text, told apart by kind; `Nop` stands for what
/// is none of them.
#[derive(Debug, PartialEq, Eq, Structural, Clone, Copy)]
pub enum Token {
    Red,
    Orange,
    Yellow,
    Green,
    Blue,
    Purple,
    Up,
    Down,
    Left,
    Right,
    One,
    Two,
    Three,
    Nop,
}

impl Token {
    /// The token of a colour.
    pub open spec fn of_stone(c: Color) -> Token {
        match c {
            Color::Red => Token::Red,
            Color::Orange => Token::Orange,
            Color::Yellow => Token::Yellow,
            Color::Green => Token::Green,
            Color::Blue => Token::Blue,
            Color::Purple => Token::Purple,
            Color::Invis => Token::Nop,
        }
    }

    /// The token of a direction.
    pub open spec fn of_direction(d: Direction) -> Token {
        match d {
            Direction::Up => Token::Up,
            Direction::Down => Token::Down,
            Direction::Left => Token::Left,
            Direction::Right => Token::Right,
            Direction::Unknown => Token::Nop,
        }
    }

    /// The token of a step count.
    pub open spec fn of_number(n: Number) -> Token {
        match n {
            Number::One => Token::One,
            Number::Two => Token::Two,
            Number::Three => Token::Three,
            Number::Unknown => Token::Nop,
        }
    }

    /// The token names a colour.
    pub open spec fn names_color(self) -> bool {
        self == Token::Red || self == Token::Orange || self == Token::Yellow || self
            == Token::Green || self == Token::Blue || self == Token::Purple
    }

    /// The token names a direction.
    pub open spec fn names_direction(self) -> bool {
        self == Token::Up || self == Token::Down || self == Token::Left || self == Token::Right
    }

    /// The token names a step count.
    pub open spec fn names_number(self) -> bool {
        self == Token::One || self == Token::Two || self == Token::Three
    }

    pub fn from_stone(c: Color) -> (t: Token)
        ensures
            t == Self::of_stone(c),
            t.names_color() <==> c != Color::Invis,
    {
        match c {
            Color::Red => Token::Red,
            Color::Orange => Token::Orange,
            Color::Yellow => Token::Yellow,
            Color::Green => Token::Green,
            Color::Blue => Token::Blue,
            Color::Purple => Token::Purple,
            _ => Token::Nop,
        }
    }

    pub fn from_direction(d: Direction) -> (t: Token)
        ensures
            t == Self::of_direction(d),
            t.names_direction() <==> d != Direction::Unknown,
    {
        match d {
            Direction::Up => Token::Up,
            Direction::Down => Token::Down,
            Direction::Left => Token::Left,
            Direction::Right => Token::Right,
            _ => Token::Nop,
        }
    }

    pub fn from_number(n: Number) -> (t: Token)
        ensures
            t == Self::of_number(n),
            t.names_number() <==> n != Number::Unknown,
    {
        match n {
            Number::One => Token::One,
            Number::Two => Token::Two,
            Number::Three => Token::Three,
            _ => Token::Nop,
        }
    }

    /// The colour that the token names, `Invis` where it names none.
    pub fn to_stone(self) -> (c: Color)
        ensures
            self.names_color() ==> Self::of_stone(c) == self,
            !self.names_color() ==> c == Color::Invis,
    {
        match self {
            Token::Red => Color::Red,
            Token::Orange => Color::Orange,
            Token::Yellow => Color::Yellow,
            Token::Green => Color::Green,
            Token::Blue => Color::Blue,
            Token::Purple => Color::Purple,
            _ => Color::Invis,
        }
    }

    /// The direction that the token names, `Unknown` where it names none.
    pub fn to_direction(self) -> (d: Direction)
        ensures
            self.names_direction() ==> Self::of_direction(d) == self,
            !self.names_direction() ==> d == Direction::Unknown,
    {
        match self {
            Token::Up => Direction::Up,
            Token::Down => Direction::Down,
            Token::Left => Direction::Left,
            Token::Right => Direction::Right,
            _ => Direction::Unknown,
        }
    }

    /// The step count that the token names, `Unknown` where it names none.
    pub fn to_number(self) -> (n: Number)
        ensures
            self.names_number() ==> Self::of_number(n) == self,
            !self.names_number() ==> n == Number::Unknown,
    {
        match self {
            Token::One => Number::One,
            Token::Two => Number::Two,
            Token::Three => Number::Three,
            _ => Number::Unknown,
        }
    }

    pub fn is_color(self) -> (b: bool)
        ensures
            b == self.names_color(),
    {
        match self {
            Token::Red => true,
            Token::Orange => true,
            Token::Yellow => true,
            Token::Green => true,
            Token::Blue => true,
            Token::Purple => true,
            _ => false,
        }
    }

    pub fn is_direction(self) -> (b: bool)
        ensures
            b == self.names_direction(),
    {
        match self {
            Token::Up => true,
            Token::Down => true,
            Token::Left => true,
            Token::Right => true,
            _ => false,
        }
    }

    pub fn is_number(self) -> (b: bool)
        ensures
            b == self.names_number(),
    {
        match self {
            Token::One => true,
            Token::Two => true,
            Token::Three => true,
            _ => false,
        }
    }
}

} // verus!
