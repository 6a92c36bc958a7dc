use vstd::prelude::*;

use crate::text::spells;

verus! {

/// A step count as the source text writes it in digits; `Unknown` stands for
/// a word that writes none.
#[derive(Debug, PartialEq, Eq, Structural, Clone, Copy)]
pub enum Number {
    One,
    Two,
    Three,
    Unknown,
}

impl Number {
    /// The step count that `num` writes.
    pub open spec fn named(num: Seq<char>) -> Number {
        if num == "1"@ {
            Number::One
        } else if num == "2"@ {
            Number::Two
        } else if num == "3"@ {
            Number::Three
        } else {
            Number::Unknown
        }
    }

    pub fn from_str(num: &str) -> (n: Number)
        ensures
            n == Self::named(num@),
    {
        if spells(num, "1") {
            Number::One
        } else if spells(num, "2") {
            Number::Two
        } else if spells(num, "3") {
            Number::Three
        } else {
            Number::Unknown
        }
    }
}

} // verus!
