use vstd::prelude::*;
use vstd::std_specs::convert::FromSpecImpl;

use crate::command::{Command, Dir, EitherNumber, Stone};
use crate::syntax::Token;

verus! {

/// The step count of an instruction, with the token that spelled it.
#[derive(Debug, Clone, Copy, PartialEq, Eq, Structural)]
pub struct Number {
    pub number: EitherNumber,
    pub number_token: Token,
}

/// An instruction as it stands in the source: colour, direction and, for
/// red and orange, a step count, each with its token.
#[derive(Debug, Clone, Copy, PartialEq, Eq, Structural)]
pub struct AstCommand {
    pub color: Stone,
    pub color_token: Token,
    pub dir: Dir,
    pub dir_token: Token,
    pub number: Option<Number>,
}

impl AstCommand {
    /// The command that the machine runs for this instruction.
    pub open spec fn command(self) -> Command {
        Command {
            color: self.color,
            dir: self.dir,
            number: match self.number {
                Some(n) => Some(n.number),
                None => None,
            },
            side_effect: false,
        }
    }

    /// Purple right: the instruction that closes an `if` or a `while`.
    pub open spec fn closes(self) -> bool {
        self.color == Stone::Purple && self.dir == Dir::Right
    }

    /// Purple down: the instruction that opens the other branch of an `if`.
    pub open spec fn turns(self) -> bool {
        self.color == Stone::Purple && self.dir == Dir::Down
    }

    pub fn is_end(&self) -> (b: bool)
        ensures
            b == self.closes(),
    {
        self.color == Stone::Purple && self.dir == Dir::Right
    }

    pub fn is_else(&self) -> (b: bool)
        ensures
            b == self.turns(),
    {
        self.color == Stone::Purple && self.dir == Dir::Down
    }
}

impl From<AstCommand> for Command {
    fn from(value: AstCommand) -> (c: Command) {
        Command {
            color: value.color,
            dir: value.dir,
            number: match value.number {
                Some(n) => Some(n.number),
                None => None,
            },
            side_effect: false,
        }
    }
}

impl FromSpecImpl<AstCommand> for Command {
    open spec fn obeys_from_spec() -> bool {
        true
    }

    open spec fn from_spec(value: AstCommand) -> Command {
        value.command()
    }
}

/// The other branch of an `if`: the purple down that opens it and its
/// statements.
#[derive(Debug)]
pub struct Else {
    pub else_: AstCommand,
    pub body: Vec<Ast>,
}

/// A statement: a single instruction, a `while` from purple left to purple
/// right, or an `if` from purple up to purple right.
#[derive(Debug)]
pub enum Ast {
    PurpleLeft { begin: AstCommand, body: Vec<Ast>, end: AstCommand },
    PurpleUp { begin: AstCommand, body: Vec<Ast>, else_: Option<Else>, end: AstCommand },
    Normal { command: AstCommand },
}

/// The mathematical content of a statement.
pub enum Tree {
    While { begin: AstCommand, body: Seq<Tree>, end: AstCommand },
    If {
        begin: AstCommand,
        body: Seq<Tree>,
        other: Option<(AstCommand, Seq<Tree>)>,
        end: AstCommand,
    },
    Normal { command: AstCommand },
}

impl Tree {
    /// The instruction that the statement begins with.
    pub open spec fn first(self) -> AstCommand {
        match self {
            Tree::While { begin, .. } => begin,
            Tree::If { begin, .. } => begin,
            Tree::Normal { command } => command,
        }
    }
}

impl View for Ast {
    type V = Tree;

    open spec fn view(&self) -> Tree
        decreases self,
    {
        match self {
            Ast::PurpleLeft { begin, body, end } => Tree::While {
                begin: *begin,
                body: trees(body@),
                end: *end,
            },
            Ast::PurpleUp { begin, body, else_, end } => Tree::If {
                begin: *begin,
                body: trees(body@),
                other: match else_ {
                    Some(e) => Some((e.else_, trees(e.body@))),
                    None => None,
                },
                end: *end,
            },
            Ast::Normal { command } => Tree::Normal { command: *command },
        }
    }
}

/// The contents of the statements of `s`, one by one.
pub open spec fn trees(s: Seq<Ast>) -> Seq<Tree>
    decreases s,
{
    Seq::new(
        s.len(),
        |i: int|
            if 0 <= i < s.len() {
                s[i]@
            } else {
                Tree::Normal {
                    command: AstCommand {
                        color: Stone::__,
                        color_token: Token::Eof,
                        dir: Dir::Left,
                        dir_token: Token::Eof,
                        number: None,
                    },
                }
            },
    )
}

impl Ast {
    /// The instruction that the statement begins with.
    pub fn command(&self) -> (c: AstCommand)
        ensures
            c == self@.first(),
    {
        match self {
            Ast::PurpleUp { begin, .. } => *begin,
            Ast::PurpleLeft { begin, .. } => *begin,
            Ast::Normal { command } => *command,
        }
    }

    pub fn is_end(&self) -> (b: bool)
        ensures
            b == self@.first().closes(),
    {
        self.command().is_end()
    }

    pub fn is_else(&self) -> (b: bool)
        ensures
            b == self@.first().turns(),
    {
        self.command().is_else()
    }
}

/// The statements `a` and the statement `t` after them.
pub proof fn lemma_trees_push(a: Seq<Ast>, t: Ast)
    ensures
        trees(a.push(t)) == trees(a).push(t@),
{
    assert(trees(a.push(t)) =~= trees(a).push(t@));
}

} // verus!
