use std::cmp::Ordering;
use vstd::prelude::*;
use vstd::std_specs::cmp::PartialOrdSpecImpl;
use vstd::std_specs::convert::TryFromSpecImpl;

use crate::error::Error;
use crate::syntax::Token;
use crate::vm::{Comparison, Math, Opcode};

verus! {

/// What a cell of the grid holds: nothing (`__`) or the stone of one colour.
#[derive(Clone, Copy, Debug, PartialEq, Eq, Structural)]
pub enum Stone {
    __,
    Red,
    Orange,
    Yellow,
    Green,
    Blue,
    Purple,
}

impl Stone {
    /// The weight that decides who pushes whom: the empty cell is lightest,
    /// purple is heaviest.
    pub open spec fn weight(self) -> nat {
        match self {
            Stone::__ => 0,
            Stone::Red => 1,
            Stone::Orange => 2,
            Stone::Yellow => 3,
            Stone::Green => 4,
            Stone::Blue => 5,
            Stone::Purple => 6,
        }
    }

    /// The magnitude selector of a one-step move of this colour.
    pub open spec fn spec_number_one(self) -> Option<EitherNumber> {
        match self {
            Stone::Red => Some(EitherNumber::Red(RedNumber::One)),
            Stone::Orange => Some(EitherNumber::Orange(OrangeNumber::One)),
            _ => None,
        }
    }

    /// The weight as a number that can be compared at run time.
    pub fn rank(&self) -> (w: u8)
        ensures
            w == self.weight(),
    {
        match self {
            Stone::__ => 0,
            Stone::Red => 1,
            Stone::Orange => 2,
            Stone::Yellow => 3,
            Stone::Green => 4,
            Stone::Blue => 5,
            Stone::Purple => 6,
        }
    }

    pub fn has_number(&self) -> (b: bool)
        ensures
            b == (*self == Stone::Red || *self == Stone::Orange),
    {
        match self {
            Stone::Red | Stone::Orange => true,
            _ => false,
        }
    }

    pub fn number_one(&self) -> (n: Option<EitherNumber>)
        ensures
            n == self.spec_number_one(),
    {
        match self {
            Stone::Red => Some(EitherNumber::Red(RedNumber::One)),
            Stone::Orange => Some(EitherNumber::Orange(OrangeNumber::One)),
            _ => None,
        }
    }
}

impl PartialOrd for Stone {
    fn partial_cmp(&self, other: &Stone) -> (o: Option<Ordering>) {
        let a = self.rank();
        let b = other.rank();
        if a < b {
            Some(Ordering::Less)
        } else if a == b {
            Some(Ordering::Equal)
        } else {
            Some(Ordering::Greater)
        }
    }
}

impl PartialOrdSpecImpl for Stone {
    open spec fn obeys_partial_cmp_spec() -> bool {
        true
    }

    open spec fn partial_cmp_spec(&self, other: &Stone) -> Option<Ordering> {
        if self.weight() < other.weight() {
            Some(Ordering::Less)
        } else if self.weight() == other.weight() {
            Some(Ordering::Equal)
        } else {
            Some(Ordering::Greater)
        }
    }
}

#[derive(Clone, Copy, Debug, PartialEq, Eq, Structural)]
pub enum Dir {
    Left,
    Right,
    Up,
    Down,
}

#[derive(Clone, Copy, Debug, PartialEq, Eq, Structural)]
pub enum RedNumber {
    One,
    Two,
    Three,
}

impl RedNumber {
    pub open spec fn spec_magnitude(self) -> nat {
        match self {
            RedNumber::One => 1,
            RedNumber::Two => 2,
            RedNumber::Three => 3,
        }
    }

    pub fn magnitude(&self) -> (m: usize)
        ensures
            m == self.spec_magnitude(),
    {
        match self {
            RedNumber::One => 1,
            RedNumber::Two => 2,
            RedNumber::Three => 3,
        }
    }

    /// The selector that stands for `i` steps.
    pub fn from_magnitude(i: usize) -> (n: RedNumber)
        requires
            1 <= i <= 3,
        ensures
            n.spec_magnitude() == i,
    {
        if i == 1 {
            RedNumber::One
        } else if i == 2 {
            RedNumber::Two
        } else {
            RedNumber::Three
        }
    }
}

#[derive(Clone, Copy, Debug, PartialEq, Eq, Structural)]
pub enum OrangeNumber {
    One,
    Two,
}

impl OrangeNumber {
    pub open spec fn spec_magnitude(self) -> nat {
        match self {
            OrangeNumber::One => 1,
            OrangeNumber::Two => 2,
        }
    }

    pub fn magnitude(&self) -> (m: usize)
        ensures
            m == self.spec_magnitude(),
    {
        match self {
            OrangeNumber::One => 1,
            OrangeNumber::Two => 2,
        }
    }

    /// The selector that stands for `i` steps.
    pub fn from_magnitude(i: usize) -> (n: OrangeNumber)
        requires
            1 <= i <= 2,
        ensures
            n.spec_magnitude() == i,
    {
        if i == 1 {
            OrangeNumber::One
        } else {
            OrangeNumber::Two
        }
    }
}

#[derive(Clone, Copy, Debug, PartialEq, Eq, Structural)]
pub enum EitherNumber {
    Red(RedNumber),
    Orange(OrangeNumber),
}

impl EitherNumber {
    pub open spec fn spec_magnitude(self) -> nat {
        match self {
            EitherNumber::Red(number) => number.spec_magnitude(),
            EitherNumber::Orange(number) => number.spec_magnitude(),
        }
    }

    pub fn magnitude(&self) -> (m: usize)
        ensures
            m == self.spec_magnitude(),
    {
        match self {
            EitherNumber::Red(number) => number.magnitude(),
            EitherNumber::Orange(number) => number.magnitude(),
        }
    }
}

/// One instruction: the stone to slide, the direction, and for red and
/// orange the number of steps.
#[derive(Clone, Copy, Debug, PartialEq, Eq, Structural)]
pub struct Command {
    pub color: Stone,
    pub dir: Dir,
    pub number: Option<EitherNumber>,
    pub side_effect: bool,
}

impl Command {
    /// A command names a real stone and carries exactly the selector its
    /// colour calls for: red a red one, orange an orange one, the others none.
    pub open spec fn wf(self) -> bool {
        match self.color {
            Stone::__ => false,
            Stone::Red => self.number matches Some(EitherNumber::Red(_)),
            Stone::Orange => self.number matches Some(EitherNumber::Orange(_)),
            _ => self.number is None,
        }
    }

    pub open spec fn spec_magnitude(self) -> nat {
        match self.number {
            Some(number) => number.spec_magnitude(),
            None => 1,
        }
    }

    /// The largest step count the colour of this command can carry.
    pub open spec fn max_magnitude(self) -> nat {
        match self.color {
            Stone::Red => 3,
            Stone::Orange => 2,
            _ => 1,
        }
    }

    /// This command with its step count replaced by `m`.
    pub open spec fn with_magnitude(self, m: nat) -> Command {
        match self.color {
            Stone::Red => Command {
                number: Some(
                    EitherNumber::Red(
                        if m == 1 {
                            RedNumber::One
                        } else if m == 2 {
                            RedNumber::Two
                        } else {
                            RedNumber::Three
                        },
                    ),
                ),
                ..self
            },
            Stone::Orange => Command {
                number: Some(
                    EitherNumber::Orange(
                        if m == 1 {
                            OrangeNumber::One
                        } else {
                            OrangeNumber::Two
                        },
                    ),
                ),
                ..self
            },
            _ => self,
        }
    }

    /// The opcode a command stands for by itself; purple stands for none.
    pub open spec fn spec_opcode(self) -> Option<Opcode> {
        match (self.color, self.dir, self.number) {
            (Stone::Red, dir, Some(EitherNumber::Red(RedNumber::One))) => Some(
                Opcode::PushNumber(
                    match dir {
                        Dir::Up => 0,
                        Dir::Down => 1,
                        Dir::Left => 2,
                        Dir::Right => 3,
                    },
                ),
            ),
            (Stone::Red, dir, Some(EitherNumber::Red(RedNumber::Two))) => Some(
                Opcode::PushNumber(
                    match dir {
                        Dir::Up => 4,
                        Dir::Down => 5,
                        Dir::Left => 6,
                        Dir::Right => 7,
                    },
                ),
            ),
            (Stone::Red, dir, Some(EitherNumber::Red(RedNumber::Three))) => Some(
                match dir {
                    Dir::Up => Opcode::PushNumber(8),
                    Dir::Down => Opcode::PushNumber(9),
                    Dir::Left => Opcode::PushBool(true),
                    Dir::Right => Opcode::PushBool(false),
                },
            ),
            (Stone::Orange, dir, Some(EitherNumber::Orange(OrangeNumber::One))) => Some(
                match dir {
                    Dir::Up => Opcode::StartArray,
                    Dir::Down => Opcode::PushArray,
                    Dir::Left => Opcode::EndArray,
                    Dir::Right => Opcode::NthArray,
                },
            ),
            (Stone::Orange, dir, Some(EitherNumber::Orange(OrangeNumber::Two))) => Some(
                match dir {
                    Dir::Up => Opcode::Comparison(Comparison::Equal),
                    Dir::Down => Opcode::Comparison(Comparison::LessThan),
                    Dir::Left => Opcode::Comparison(Comparison::GreaterThan),
                    Dir::Right => Opcode::Quine,
                },
            ),
            (Stone::Yellow, dir, None) => Some(
                Opcode::Math(
                    match dir {
                        Dir::Up => Math::Multiply,
                        Dir::Down => Math::Add,
                        Dir::Left => Math::Subtract,
                        Dir::Right => Math::Divide,
                    },
                ),
            ),
            (Stone::Green, dir, None) => Some(
                match dir {
                    Dir::Up => Opcode::Roll,
                    Dir::Down => Opcode::Dup,
                    Dir::Left => Opcode::Drop,
                    Dir::Right => Opcode::Not,
                },
            ),
            (Stone::Blue, dir, None) => Some(
                match dir {
                    Dir::Up => Opcode::Print,
                    Dir::Down => Opcode::Input,
                    Dir::Left => Opcode::Printc,
                    Dir::Right => Opcode::Swap,
                },
            ),
            _ => None,
        }
    }

    /// Whether the command is well formed.
    pub fn is_valid(&self) -> (b: bool)
        ensures
            b == self.wf(),
    {
        match self.color {
            Stone::__ => false,
            Stone::Red => match self.number {
                Some(EitherNumber::Red(_)) => true,
                _ => false,
            },
            Stone::Orange => match self.number {
                Some(EitherNumber::Orange(_)) => true,
                _ => false,
            },
            _ => self.number.is_none(),
        }
    }

    /// The command that moves nothing: it names the empty cell.
    pub open spec fn spec_empty() -> Command {
        Command { color: Stone::__, dir: Dir::Left, number: None, side_effect: false }
    }

    #[verifier::when_used_as_spec(spec_empty)]
    pub fn empty() -> (c: Command)
        ensures
            c == Self::spec_empty(),
    {
        Command { color: Stone::__, dir: Dir::Left, number: None, side_effect: false }
    }

    pub fn magnitude(&self) -> (m: usize)
        ensures
            m == self.spec_magnitude(),
            1 <= m <= 3,
    {
        match self.number {
            Some(number) => number.magnitude(),
            None => 1,
        }
    }

    pub fn change_magnitude(self, new_magnitude: usize) -> (c: Command)
        requires
            self.color != Stone::__,
            1 <= new_magnitude <= self.max_magnitude(),
        ensures
            c == self.with_magnitude(new_magnitude as nat),
    {
        match self.color {
            Stone::Red => Command {
                color: Stone::Red,
                dir: self.dir,
                number: Some(EitherNumber::Red(RedNumber::from_magnitude(new_magnitude))),
                side_effect: self.side_effect,
            },
            Stone::Orange => Command {
                color: Stone::Orange,
                dir: self.dir,
                number: Some(EitherNumber::Orange(OrangeNumber::from_magnitude(new_magnitude))),
                side_effect: self.side_effect,
            },
            _ => self,
        }
    }

    /// The command as the source text writes it: colour, direction and step
    /// count in words, with a note behind those that a push brought about.
    pub open spec fn text(self) -> Seq<char> {
        (match self.color {
            Stone::__ => "__"@,
            Stone::Red => "red"@,
            Stone::Orange => "orange"@,
            Stone::Yellow => "yellow"@,
            Stone::Green => "green"@,
            Stone::Blue => "blue"@,
            Stone::Purple => "purple"@,
        }) + " "@ + (match self.dir {
            Dir::Up => "up"@,
            Dir::Down => "down"@,
            Dir::Left => "left"@,
            Dir::Right => "right"@,
        }) + (match self.number {
            Some(EitherNumber::Red(RedNumber::One)) => " one"@,
            Some(EitherNumber::Red(RedNumber::Two)) => " two"@,
            Some(EitherNumber::Red(RedNumber::Three)) => " three"@,
            Some(EitherNumber::Orange(OrangeNumber::One)) => " one"@,
            Some(EitherNumber::Orange(OrangeNumber::Two)) => " two"@,
            None => ""@,
        }) + (if self.side_effect {
            " (side effect)"@
        } else {
            ""@
        })
    }

    pub fn to_string(&self) -> (s: String)
        ensures
            s@ == self.text(),
    {
        let mut s = String::from_str(
            match self.color {
                Stone::__ => "__",
                Stone::Red => "red",
                Stone::Orange => "orange",
                Stone::Yellow => "yellow",
                Stone::Green => "green",
                Stone::Blue => "blue",
                Stone::Purple => "purple",
            },
        );
        s.append(" ");
        s.append(
            match self.dir {
                Dir::Up => "up",
                Dir::Down => "down",
                Dir::Left => "left",
                Dir::Right => "right",
            },
        );
        s.append(
            match self.number {
                Some(EitherNumber::Red(RedNumber::One)) => " one",
                Some(EitherNumber::Red(RedNumber::Two)) => " two",
                Some(EitherNumber::Red(RedNumber::Three)) => " three",
                Some(EitherNumber::Orange(OrangeNumber::One)) => " one",
                Some(EitherNumber::Orange(OrangeNumber::Two)) => " two",
                None => "",
            },
        );
        s.append(
            if self.side_effect {
                " (side effect)"
            } else {
                ""
            },
        );
        s
    }

    pub fn get_opcode(&self) -> (op: Option<Opcode>)
        requires
            self.wf(),
        ensures
            op == self.spec_opcode(),
            op is None <==> self.color == Stone::Purple,
    {
        match (self.color, self.dir, self.number) {
            (Stone::Red, dir, Some(EitherNumber::Red(RedNumber::One))) => Some(
                Opcode::PushNumber(
                    match dir {
                        Dir::Up => 0,
                        Dir::Down => 1,
                        Dir::Left => 2,
                        Dir::Right => 3,
                    },
                ),
            ),
            (Stone::Red, dir, Some(EitherNumber::Red(RedNumber::Two))) => Some(
                Opcode::PushNumber(
                    match dir {
                        Dir::Up => 4,
                        Dir::Down => 5,
                        Dir::Left => 6,
                        Dir::Right => 7,
                    },
                ),
            ),
            (Stone::Red, dir, Some(EitherNumber::Red(RedNumber::Three))) => Some(
                match dir {
                    Dir::Up => Opcode::PushNumber(8),
                    Dir::Down => Opcode::PushNumber(9),
                    Dir::Left => Opcode::PushBool(true),
                    Dir::Right => Opcode::PushBool(false),
                },
            ),
            (Stone::Orange, Dir::Up, Some(EitherNumber::Orange(OrangeNumber::One))) => Some(
                Opcode::StartArray,
            ),
            (Stone::Orange, Dir::Down, Some(EitherNumber::Orange(OrangeNumber::One))) => Some(
                Opcode::PushArray,
            ),
            (Stone::Orange, Dir::Left, Some(EitherNumber::Orange(OrangeNumber::One))) => Some(
                Opcode::EndArray,
            ),
            (Stone::Orange, Dir::Right, Some(EitherNumber::Orange(OrangeNumber::One))) => Some(
                Opcode::NthArray,
            ),
            (Stone::Orange, Dir::Right, Some(EitherNumber::Orange(OrangeNumber::Two))) => Some(
                Opcode::Quine,
            ),
            (Stone::Orange, dir, Some(EitherNumber::Orange(OrangeNumber::Two))) => Some(
                Opcode::Comparison(
                    match dir {
                        Dir::Up => Comparison::Equal,
                        Dir::Down => Comparison::LessThan,
                        _ => Comparison::GreaterThan,
                    },
                ),
            ),
            (Stone::Yellow, dir, None) => Some(
                Opcode::Math(
                    match dir {
                        Dir::Up => Math::Multiply,
                        Dir::Down => Math::Add,
                        Dir::Left => Math::Subtract,
                        Dir::Right => Math::Divide,
                    },
                ),
            ),
            (Stone::Green, Dir::Up, None) => Some(Opcode::Roll),
            (Stone::Green, Dir::Down, None) => Some(Opcode::Dup),
            (Stone::Green, Dir::Left, None) => Some(Opcode::Drop),
            (Stone::Green, Dir::Right, None) => Some(Opcode::Not),
            (Stone::Blue, Dir::Up, None) => Some(Opcode::Print),
            (Stone::Blue, Dir::Down, None) => Some(Opcode::Input),
            (Stone::Blue, Dir::Left, None) => Some(Opcode::Printc),
            (Stone::Blue, Dir::Right, None) => Some(Opcode::Swap),
            _ => None,
        }
    }
}

impl TryFrom<Token> for Stone {
    type Error = Error;

    fn try_from(value: Token) -> (r: Result<Stone, Error>) {
        match value {
            Token::Red => Ok(Stone::Red),
            Token::Orange => Ok(Stone::Orange),
            Token::Yellow => Ok(Stone::Yellow),
            Token::Green => Ok(Stone::Green),
            Token::Blue => Ok(Stone::Blue),
            Token::Purple => Ok(Stone::Purple),
            _ => Err(Error::ExpectedColor { got: value }),
        }
    }
}

impl TryFromSpecImpl<Token> for Stone {
    open spec fn obeys_try_from_spec() -> bool {
        true
    }

    open spec fn try_from_spec(value: Token) -> Result<Stone, Error> {
        match value {
            Token::Red => Ok(Stone::Red),
            Token::Orange => Ok(Stone::Orange),
            Token::Yellow => Ok(Stone::Yellow),
            Token::Green => Ok(Stone::Green),
            Token::Blue => Ok(Stone::Blue),
            Token::Purple => Ok(Stone::Purple),
            _ => Err(Error::ExpectedColor { got: value }),
        }
    }
}

impl TryFrom<Token> for Dir {
    type Error = Error;

    fn try_from(value: Token) -> (r: Result<Dir, Error>) {
        match value {
            Token::Left => Ok(Dir::Left),
            Token::Right => Ok(Dir::Right),
            Token::Up => Ok(Dir::Up),
            Token::Down => Ok(Dir::Down),
            _ => Err(Error::ExpectedDir { got: value }),
        }
    }
}

impl TryFromSpecImpl<Token> for Dir {
    open spec fn obeys_try_from_spec() -> bool {
        true
    }

    open spec fn try_from_spec(value: Token) -> Result<Dir, Error> {
        match value {
            Token::Left => Ok(Dir::Left),
            Token::Right => Ok(Dir::Right),
            Token::Up => Ok(Dir::Up),
            Token::Down => Ok(Dir::Down),
            _ => Err(Error::ExpectedDir { got: value }),
        }
    }
}

impl TryFrom<Token> for RedNumber {
    type Error = Error;

    fn try_from(value: Token) -> (r: Result<RedNumber, Error>) {
        match value {
            Token::One => Ok(RedNumber::One),
            Token::Two => Ok(RedNumber::Two),
            Token::Three => Ok(RedNumber::Three),
            _ => Err(Error::ExpectedRedNumber { got: value }),
        }
    }
}

impl TryFromSpecImpl<Token> for RedNumber {
    open spec fn obeys_try_from_spec() -> bool {
        true
    }

    open spec fn try_from_spec(value: Token) -> Result<RedNumber, Error> {
        match value {
            Token::One => Ok(RedNumber::One),
            Token::Two => Ok(RedNumber::Two),
            Token::Three => Ok(RedNumber::Three),
            _ => Err(Error::ExpectedRedNumber { got: value }),
        }
    }
}

impl TryFrom<Token> for OrangeNumber {
    type Error = Error;

    fn try_from(value: Token) -> (r: Result<OrangeNumber, Error>) {
        match value {
            Token::One => Ok(OrangeNumber::One),
            Token::Two => Ok(OrangeNumber::Two),
            _ => Err(Error::ExpectedOrangeNumber { got: value }),
        }
    }
}

impl TryFromSpecImpl<Token> for OrangeNumber {
    open spec fn obeys_try_from_spec() -> bool {
        true
    }

    open spec fn try_from_spec(value: Token) -> Result<OrangeNumber, Error> {
        match value {
            Token::One => Ok(OrangeNumber::One),
            Token::Two => Ok(OrangeNumber::Two),
            _ => Err(Error::ExpectedOrangeNumber { got: value }),
        }
    }
}

} // verus!
