//! An interpreter for a language whose instructions are stones of six
//! colours on a grid that wraps around at its edges. To run an instruction
//! is to try to slide its stone: how far the stone gets, and which lighter
//! stones it pushes on its way, decides which operations run against the
//! operand stack.
//!
//! The `field` module resolves moves, `command` maps them to opcodes,
//! `syntax` and `parser` read a source text, `compiler` sets the jumps of
//! `if` and `while`, and `vm` runs the program. `machine` holds the
//! mathematical model of the machine, against which `vm` is proved.

pub mod ast;
pub mod color;
pub mod command;
pub mod compiler;
pub mod direction;
pub mod error;
pub mod field;
pub mod machine;
pub mod number;
pub mod parser;
pub mod statement;
pub mod syntax;
pub mod text;
pub mod token;
pub mod value;
pub mod vm;

pub use ast::{Ast, AstCommand, Else, Number};
pub use color::Color;
pub use command::EitherNumber;
pub use compiler::compile;
pub use direction::Direction;
pub use error::Error;
pub use parser::parse;
pub use syntax::{scan, Token};
pub use value::Value;
