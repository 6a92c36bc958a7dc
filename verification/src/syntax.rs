use vstd::prelude::*;
use vstd::std_specs::convert::TryFromSpecImpl;

use crate::error::{Error, Failure};
use crate::text::{chars_of, is_space, is_whitespace, same_text};

verus! {

/// A word of the source text.
#[derive(Debug, PartialEq, Eq, Structural, Clone, Copy)]
pub enum Token {
    Red,
    Orange,
    Yellow,
    Green,
    Blue,
    Purple,
    Up,
    Down,
    Left,
    Right,
    One,
    Two,
    Three,
    Eof,
}

/// The token that a word spells, if it spells one.
pub open spec fn token_of(word: Seq<char>) -> Option<Token> {
    if word == "red"@ {
        Some(Token::Red)
    } else if word == "orange"@ {
        Some(Token::Orange)
    } else if word == "yellow"@ {
        Some(Token::Yellow)
    } else if word == "green"@ {
        Some(Token::Green)
    } else if word == "blue"@ {
        Some(Token::Blue)
    } else if word == "purple"@ {
        Some(Token::Purple)
    } else if word == "up"@ {
        Some(Token::Up)
    } else if word == "down"@ {
        Some(Token::Down)
    } else if word == "left"@ {
        Some(Token::Left)
    } else if word == "right"@ {
        Some(Token::Right)
    } else if word == "one"@ {
        Some(Token::One)
    } else if word == "two"@ {
        Some(Token::Two)
    } else if word == "three"@ {
        Some(Token::Three)
    } else {
        None
    }
}

/// The length of the word at the start of `s`: the characters before the
/// first white space.
pub open spec fn word_len(s: Seq<char>) -> int
    decreases s.len(),
{
    if s.len() == 0 || is_space(s[0]) {
        0
    } else {
        1 + word_len(s.drop_first())
    }
}

/// The tokens of a source text: its words, split at white space, without
/// those that spell no token.
pub open spec fn scanned(s: Seq<char>) -> Seq<Token>
    decreases s.len(),
{
    if s.len() == 0 {
        Seq::empty()
    } else if is_space(s[0]) {
        scanned(s.drop_first())
    } else {
        let n = word_len(s);
        if 0 < n <= s.len() {
            (match token_of(s.take(n)) {
                Some(t) => seq![t],
                None => Seq::empty(),
            }) + scanned(s.skip(n))
        } else {
            Seq::empty()
        }
    }
}

/// A word that starts with a character that is no white space has at
/// least that character and ends within the text: the test on its length
/// in `scanned` never fails.
pub proof fn lemma_word_len(s: Seq<char>)
    ensures
        0 <= word_len(s) <= s.len(),
        s.len() > 0 && !is_space(s[0]) ==> word_len(s) > 0,
    decreases s.len(),
{
    if s.len() > 0 && !is_space(s[0]) {
        lemma_word_len(s.drop_first());
    }
}

/// The word that starts at the first character of `s` runs as far as the
/// characters are no white space.
proof fn lemma_word_end(s: Seq<char>, n: int)
    requires
        0 <= n <= s.len(),
        forall|i: int| 0 <= i < n ==> !is_space(#[trigger] s[i]),
        n < s.len() ==> is_space(s[n]),
    ensures
        word_len(s) == n,
    decreases n,
{
    if n == 0 {
    } else {
        let t = s.drop_first();
        assert forall|i: int| 0 <= i < n - 1 implies !is_space(#[trigger] t[i]) by {
            assert(t[i] == s[i + 1]);
        }
        if n - 1 < t.len() {
            assert(t[n - 1] == s[n]);
        }
        lemma_word_end(t, n - 1);
    }
}

impl Token {
    pub fn is_color(&self) -> (b: bool)
        ensures
            b == (*self == Token::Red || *self == Token::Orange || *self == Token::Yellow || *self
                == Token::Green || *self == Token::Blue || *self == Token::Purple),
    {
        match self {
            Token::Red
            | Token::Orange
            | Token::Yellow
            | Token::Green
            | Token::Blue
            | Token::Purple => true,
            _ => false,
        }
    }

    pub fn is_number(&self) -> (b: bool)
        ensures
            b == (*self == Token::One || *self == Token::Two || *self == Token::Three),
    {
        match self {
            Token::One | Token::Two | Token::Three => true,
            _ => false,
        }
    }

    /// The token that `s[from..to]` spells.
    fn at(s: &Vec<char>, from: usize, to: usize) -> (t: Option<Token>)
        requires
            from <= to <= s.len(),
        ensures
            t == token_of(s@.subrange(from as int, to as int)),
    {
        if same_text(s, from, to, "red") {
            Some(Token::Red)
        } else if same_text(s, from, to, "orange") {
            Some(Token::Orange)
        } else if same_text(s, from, to, "yellow") {
            Some(Token::Yellow)
        } else if same_text(s, from, to, "green") {
            Some(Token::Green)
        } else if same_text(s, from, to, "blue") {
            Some(Token::Blue)
        } else if same_text(s, from, to, "purple") {
            Some(Token::Purple)
        } else if same_text(s, from, to, "up") {
            Some(Token::Up)
        } else if same_text(s, from, to, "down") {
            Some(Token::Down)
        } else if same_text(s, from, to, "left") {
            Some(Token::Left)
        } else if same_text(s, from, to, "right") {
            Some(Token::Right)
        } else if same_text(s, from, to, "one") {
            Some(Token::One)
        } else if same_text(s, from, to, "two") {
            Some(Token::Two)
        } else if same_text(s, from, to, "three") {
            Some(Token::Three)
        } else {
            None
        }
    }
}

impl<'a> TryFrom<&'a str> for Token {
    type Error = Error;

    fn try_from(value: &'a str) -> (r: Result<Token, Error>)
        ensures
            match token_of(value@) {
                Some(t) => r == Ok::<Token, Error>(t),
                None => r matches Err(e) && e@ == (Failure::UnknownToken { token: value@ }),
            },
    {
        let chars = chars_of(value);
        proof {
            assert(chars@.subrange(0, chars.len() as int) =~= value@);
        }
        match Token::at(&chars, 0, chars.len()) {
            Some(t) => Ok(t),
            None => Err(Error::UnknownToken { token: value.to_owned() }),
        }
    }
}

impl<'a> TryFromSpecImpl<&'a str> for Token {
    open spec fn obeys_try_from_spec() -> bool {
        false
    }

    open spec fn try_from_spec(value: &'a str) -> Result<Token, Error> {
        Err(Error::UnexpectedEof)
    }
}

/// The tokens of `source`, in order. Words that spell no token are passed
/// over.
pub fn scan(source: &str) -> (tokens: Vec<Token>)
    ensures
        tokens@ == scanned(source@),
{
    let s = chars_of(source);
    let mut tokens: Vec<Token> = Vec::new();
    let mut i: usize = 0;
    proof {
        assert(s@.skip(0) =~= s@);
        assert(tokens@ + scanned(s@.skip(0)) =~= scanned(s@));
    }
    while i < s.len()
        invariant
            i <= s.len(),
            s@ == source@,
            tokens@ + scanned(s@.skip(i as int)) == scanned(s@),
        decreases s.len() - i,
    {
        let ghost rest = s@.skip(i as int);
        if is_whitespace(s[i]) {
            proof {
                assert(rest[0] == s[i as int]);
                assert(rest.drop_first() =~= s@.skip(i + 1));
            }
            i += 1;
        } else {
            let start = i;
            let mut end = i + 1;
            proof {
                assert(rest[0] == s[i as int]);
            }
            while end < s.len() && !is_whitespace(s[end])
                invariant
                    start < end <= s.len(),
                    forall|j: int| start <= j < end ==> !is_space(#[trigger] s[j]),
                decreases s.len() - end,
            {
                end += 1;
            }
            let ghost n = end - start;
            proof {
                assert forall|j: int| 0 <= j < n implies !is_space(#[trigger] rest[j]) by {
                    assert(rest[j] == s[start + j]);
                }
                if n < rest.len() {
                    assert(rest[n] == s[end as int]);
                }
                lemma_word_end(rest, n);
                assert(rest.take(n) =~= s@.subrange(start as int, end as int));
                assert(rest.skip(n) =~= s@.skip(end as int));
            }
            let ghost before = tokens@;
            match Token::at(&s, start, end) {
                Some(t) => {
                    tokens.push(t);
                    proof {
                        assert(tokens@ + scanned(s@.skip(end as int)) =~= before + (seq![t]
                            + scanned(rest.skip(n))));
                    }
                },
                None => {
                    proof {
                        assert(tokens@ + scanned(s@.skip(end as int)) =~= before + (Seq::<
                            Token,
                        >::empty() + scanned(rest.skip(n))));
                    }
                },
            }
            i = end;
        }
    }
    proof {
        assert(scanned(s@.skip(i as int)) =~= Seq::<Token>::empty());
        assert(tokens@ =~= scanned(s@));
    }
    tokens
}

} // verus!
