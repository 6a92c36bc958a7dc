use vstd::prelude::*;

use crate::syntax::Token;

verus! {

/// Everything that can stop the scanner, the parser or the machine.
#[derive(Debug)]
#[allow(inconsistent_fields)]
pub enum Error {
    /// A word of the source text that is no token.
    UnknownToken { token: String },
    UnexpectedToken { token: Token },
    /// A purple closing instruction with nothing open to close.
    SyntaxError { why: String },
    /// The source ended in the middle of an instruction or of a block.
    UnexpectedEof,
    ExpectedColor { got: Token },
    ExpectedNumber { got: Token },
    ExpectedRedNumber { got: Token },
    ExpectedOrangeNumber { got: Token },
    ExpectedDir { got: Token },
    /// A pop on an empty stack, or a roll deeper than the stack.
    StackUnderflow,
    /// An operand of the wrong kind.
    TypeMismatch { wanted: &'static str, got: &'static str },
    /// Not a failure: the program asks for its own source text. The caller
    /// prints it and runs the machine again.
    Quine,
    /// Not a failure: the program asks for a line of input. The caller
    /// hands one over and runs the machine again.
    InputNeeded,
    /// The line of input is neither an integer nor `true` or `false`.
    ParseError,
    /// An array was closed or filled while none was open.
    NoArrayInProgress,
    /// An index that is negative or not below the length of the array.
    IndexOutOfRange { index: i64, len: usize },
    DivisionByZero,
    /// A result that does not fit in 64 bits.
    Overflow,
}

/// The mathematical content of an `Error`: its strings as sequences of
/// characters.
#[allow(inconsistent_fields)]
pub enum Failure {
    UnknownToken { token: Seq<char> },
    UnexpectedToken { token: Token },
    SyntaxError { why: Seq<char> },
    UnexpectedEof,
    ExpectedColor { got: Token },
    ExpectedNumber { got: Token },
    ExpectedRedNumber { got: Token },
    ExpectedOrangeNumber { got: Token },
    ExpectedDir { got: Token },
    StackUnderflow,
    TypeMismatch { wanted: Seq<char>, got: Seq<char> },
    Quine,
    InputNeeded,
    ParseError,
    NoArrayInProgress,
    IndexOutOfRange { index: i64, len: usize },
    DivisionByZero,
    Overflow,
}

impl View for Error {
    type V = Failure;

    open spec fn view(&self) -> Failure {
        match self {
            Error::UnknownToken { token } => Failure::UnknownToken { token: token@ },
            Error::UnexpectedToken { token } => Failure::UnexpectedToken { token: *token },
            Error::SyntaxError { why } => Failure::SyntaxError { why: why@ },
            Error::UnexpectedEof => Failure::UnexpectedEof,
            Error::ExpectedColor { got } => Failure::ExpectedColor { got: *got },
            Error::ExpectedNumber { got } => Failure::ExpectedNumber { got: *got },
            Error::ExpectedRedNumber { got } => Failure::ExpectedRedNumber { got: *got },
            Error::ExpectedOrangeNumber { got } => Failure::ExpectedOrangeNumber { got: *got },
            Error::ExpectedDir { got } => Failure::ExpectedDir { got: *got },
            Error::StackUnderflow => Failure::StackUnderflow,
            Error::TypeMismatch { wanted, got } => Failure::TypeMismatch {
                wanted: wanted@,
                got: got@,
            },
            Error::Quine => Failure::Quine,
            Error::InputNeeded => Failure::InputNeeded,
            Error::ParseError => Failure::ParseError,
            Error::NoArrayInProgress => Failure::NoArrayInProgress,
            Error::IndexOutOfRange { index, len } => Failure::IndexOutOfRange {
                index: *index,
                len: *len,
            },
            Error::DivisionByZero => Failure::DivisionByZero,
            Error::Overflow => Failure::Overflow,
        }
    }
}

} // verus!
