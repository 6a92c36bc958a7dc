use std::cmp::Ordering;
use vstd::prelude::*;
use vstd::std_specs::cmp::PartialOrdSpecImpl;

use crate::text::spells;

verus! {

/// A colour as the source text names it; `Invis` stands for a word that
/// names none.
#[derive(Debug, PartialEq, Eq, Structural, Clone, Copy)]
pub enum Color {
    Red,
    Orange,
    Yellow,
    Green,
    Blue,
    Purple,
    Invis,
}

impl Color {
    /// The colour that `col` names.
    pub open spec fn named(col: Seq<char>) -> Color {
        if col == "red"@ {
            Color::Red
        } else if col == "orange"@ {
            Color::Orange
        } else if col == "yellow"@ {
            Color::Yellow
        } else if col == "green"@ {
            Color::Green
        } else if col == "blue"@ {
            Color::Blue
        } else if col == "purple"@ {
            Color::Purple
        } else {
            Color::Invis
        }
    }

    /// The weight of the colour: `Invis` is lightest, purple heaviest.
    pub open spec fn weight(self) -> nat {
        match self {
            Color::Invis => 0,
            Color::Red => 1,
            Color::Orange => 2,
            Color::Yellow => 3,
            Color::Green => 4,
            Color::Blue => 5,
            Color::Purple => 6,
        }
    }

    pub fn from_str(col: &str) -> (c: Color)
        ensures
            c == Self::named(col@),
    {
        if spells(col, "red") {
            Color::Red
        } else if spells(col, "orange") {
            Color::Orange
        } else if spells(col, "yellow") {
            Color::Yellow
        } else if spells(col, "green") {
            Color::Green
        } else if spells(col, "blue") {
            Color::Blue
        } else if spells(col, "purple") {
            Color::Purple
        } else {
            Color::Invis
        }
    }

    /// The weight as a number that can be compared at run time.
    pub fn rank(&self) -> (w: u8)
        ensures
            w == self.weight(),
    {
        match self {
            Color::Invis => 0,
            Color::Red => 1,
            Color::Orange => 2,
            Color::Yellow => 3,
            Color::Green => 4,
            Color::Blue => 5,
            Color::Purple => 6,
        }
    }
}

impl PartialOrd for Color {
    fn partial_cmp(&self, other: &Color) -> (o: Option<Ordering>) {
        let a = self.rank();
        let b = other.rank();
        if a < b {
            Some(Ordering::Less)
        } else if a == b {
            Some(Ordering::Equal)
        } else {
            Some(Ordering::Greater)
        }
    }
}

impl PartialOrdSpecImpl for Color {
    open spec fn obeys_partial_cmp_spec() -> bool {
        true
    }

    open spec fn partial_cmp_spec(&self, other: &Color) -> Option<Ordering> {
        if self.weight() < other.weight() {
            Some(Ordering::Less)
        } else if self.weight() == other.weight() {
            Some(Ordering::Equal)
        } else {
            Some(Ordering::Greater)
        }
    }
}

} // verus!
