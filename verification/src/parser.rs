use vstd::prelude::*;
use vstd::std_specs::convert::TryFromSpec;

use crate::ast::{lemma_trees_push, trees, Ast, AstCommand, Else, Number, Tree};
use crate::command::{Dir, EitherNumber, OrangeNumber, RedNumber, Stone};
use crate::compiler::{all_well_nested, purple, well_nested};
use crate::error::{Error, Failure};
use crate::syntax::{scan, scanned, Token};
use crate::text::{append_digits, digits};

verus! {

/// What is said of a purple right or a purple down that closes nothing,
/// where `pos` is the index of its first token.
pub open spec fn unmatched(dir: Dir, pos: int) -> Seq<char> {
    (if dir == Dir::Down {
        "purple Down without corresponding purple up or purple left"@
    } else {
        "purple Right without corresponding purple up or purple left"@
    }) + " at token "@ + digits(pos as nat)
}

/// The step count that follows the colour `color` at `pos`: none for the
/// colours that take none, else the number token that stands there.
pub open spec fn number_at(tokens: Seq<Token>, pos: int, color: Stone) -> Result<
    (Option<Number>, int),
    Failure,
> {
    if color != Stone::Red && color != Stone::Orange {
        Ok((None, pos))
    } else if pos >= tokens.len() {
        Err(Failure::UnexpectedEof)
    } else {
        let t = tokens[pos];
        if t != Token::One && t != Token::Two && t != Token::Three {
            Err(Failure::ExpectedNumber { got: t })
        } else if color == Stone::Red {
            Ok(
                (
                    Some(
                        Number {
                            number: EitherNumber::Red(
                                if t == Token::One {
                                    RedNumber::One
                                } else if t == Token::Two {
                                    RedNumber::Two
                                } else {
                                    RedNumber::Three
                                },
                            ),
                            number_token: t,
                        },
                    ),
                    pos + 1,
                ),
            )
        } else if t == Token::Three {
            Err(Failure::ExpectedOrangeNumber { got: t })
        } else {
            Ok(
                (
                    Some(
                        Number {
                            number: EitherNumber::Orange(
                                if t == Token::One {
                                    OrangeNumber::One
                                } else {
                                    OrangeNumber::Two
                                },
                            ),
                            number_token: t,
                        },
                    ),
                    pos + 1,
                ),
            )
        }
    }
}

/// The instruction that starts at `pos`: a colour, a direction and, after
/// red and orange, a step count; with the position after it.
pub open spec fn command_at(tokens: Seq<Token>, pos: int) -> Result<(AstCommand, int), Failure> {
    if pos < 0 || pos >= tokens.len() {
        Err(Failure::UnexpectedEof)
    } else {
        match Stone::try_from_spec(tokens[pos]) {
            Err(_) => Err(Failure::ExpectedColor { got: tokens[pos] }),
            Ok(color) => if pos + 1 >= tokens.len() {
                Err(Failure::UnexpectedEof)
            } else {
                match Dir::try_from_spec(tokens[pos + 1]) {
                    Err(_) => Err(Failure::ExpectedDir { got: tokens[pos + 1] }),
                    Ok(dir) => match number_at(tokens, pos + 2, color) {
                        Err(e) => Err(e),
                        Ok((number, next)) => Ok(
                            (
                                AstCommand {
                                    color,
                                    color_token: tokens[pos],
                                    dir,
                                    dir_token: tokens[pos + 1],
                                    number,
                                },
                                next,
                            ),
                        ),
                    },
                }
            },
        }
    }
}

/// The statement that starts at `pos`, with the position after it. A
/// purple up opens an `if`, whose first block may end in a purple down
/// that opens a second; a purple left opens a `while`. A purple right or a
/// purple down in the place of a statement closes nothing and is refused.
///
/// Every position that is read further from lies behind the one before;
/// the tests on positions say so for the sake of termination and never
/// fail.
pub open spec fn statement_at(tokens: Seq<Token>, pos: int) -> Result<(Tree, int), Failure>
    decreases tokens.len() - pos, 0int,
{
    match command_at(tokens, pos) {
        Err(e) => Err(e),
        Ok((c, next)) => if !(pos < next <= tokens.len()) {
            Err(Failure::UnexpectedEof)
        } else if c.color == Stone::Purple && c.dir == Dir::Up {
            match block_at(tokens, next, true) {
                Err(e) => Err(e),
                Ok((body, closer, after_body)) => if !closer.turns() {
                    Ok((Tree::If { begin: c, body, other: None, end: closer }, after_body))
                } else if !(next < after_body <= tokens.len()) {
                    Err(Failure::UnexpectedEof)
                } else {
                    match block_at(tokens, after_body, false) {
                        Err(e) => Err(e),
                        Ok((second, end, done)) => Ok(
                            (
                                Tree::If { begin: c, body, other: Some((closer, second)), end },
                                done,
                            ),
                        ),
                    }
                },
            }
        } else if c.color == Stone::Purple && c.dir == Dir::Left {
            match block_at(tokens, next, false) {
                Err(e) => Err(e),
                Ok((body, end, done)) => Ok((Tree::While { begin: c, body, end }, done)),
            }
        } else if c.color == Stone::Purple {
            Err(Failure::SyntaxError { why: unmatched(c.dir, pos) })
        } else {
            Ok((Tree::Normal { command: c }, next))
        },
    }
}

/// The statements from `pos` up to the instruction that closes the block:
/// a purple right or, where `allow_else` is set, a purple down. Gives the
/// statements, the closing instruction and the position after it.
pub open spec fn block_at(tokens: Seq<Token>, pos: int, allow_else: bool) -> Result<
    (Seq<Tree>, AstCommand, int),
    Failure,
>
    decreases tokens.len() - pos, 1int,
{
    match command_at(tokens, pos) {
        Err(e) => Err(e),
        Ok((c, next)) => if c.closes() || (c.turns() && allow_else) {
            Ok((Seq::empty(), c, next))
        } else {
            match statement_at(tokens, pos) {
                Err(e) => Err(e),
                Ok((t, p)) => if !(pos < p <= tokens.len()) {
                    Err(Failure::UnexpectedEof)
                } else {
                    match block_at(tokens, p, allow_else) {
                        Err(e) => Err(e),
                        Ok((rest, closer, done)) => Ok((seq![t] + rest, closer, done)),
                    }
                },
            }
        },
    }
}

/// The statements from `pos` to the end of the tokens.
pub open spec fn program_at(tokens: Seq<Token>, pos: int) -> Result<Seq<Tree>, Failure>
    decreases tokens.len() - pos,
{
    if pos >= tokens.len() {
        Ok(Seq::empty())
    } else {
        match statement_at(tokens, pos) {
            Err(e) => Err(e),
            Ok((t, p)) => if !(pos < p <= tokens.len()) {
                Err(Failure::UnexpectedEof)
            } else {
                match program_at(tokens, p) {
                    Err(e) => Err(e),
                    Ok(rest) => Ok(seq![t] + rest),
                }
            },
        }
    }
}

/// A block with `prefix` in front of its statements.
pub open spec fn block_after(
    prefix: Seq<Tree>,
    r: Result<(Seq<Tree>, AstCommand, int), Failure>,
) -> Result<(Seq<Tree>, AstCommand, int), Failure> {
    match r {
        Err(e) => Err(e),
        Ok((rest, closer, done)) => Ok((prefix + rest, closer, done)),
    }
}

/// A program with `prefix` in front of its statements.
pub open spec fn program_after(prefix: Seq<Tree>, r: Result<Seq<Tree>, Failure>) -> Result<
    Seq<Tree>,
    Failure,
> {
    match r {
        Err(e) => Err(e),
        Ok(rest) => Ok(prefix + rest),
    }
}

/// An instruction that was read is well formed.
pub proof fn lemma_command_at(tokens: Seq<Token>, pos: int)
    ensures
        command_at(tokens, pos) matches Ok((c, next)) ==> c.command().wf() && pos < next
            <= tokens.len() && (c.color == Stone::Purple ==> c.number is None),
{
}

/// A statement that was read can be compiled, and it ends behind the
/// position where it starts and within the tokens.
pub proof fn lemma_statement_at(tokens: Seq<Token>, pos: int)
    ensures
        statement_at(tokens, pos) matches Ok((t, next)) ==> well_nested(t) && pos < next
            <= tokens.len(),
    decreases tokens.len() - pos, 0int,
{
    lemma_command_at(tokens, pos);
    match command_at(tokens, pos) {
        Err(_) => {},
        Ok((c, next)) => {
            if c.color == Stone::Purple && c.dir == Dir::Up {
                lemma_block_at(tokens, next, true);
                match block_at(tokens, next, true) {
                    Err(_) => {},
                    Ok((body, closer, after_body)) => {
                        if closer.turns() && next < after_body <= tokens.len() {
                            lemma_block_at(tokens, after_body, false);
                        }
                    },
                }
            } else if c.color == Stone::Purple && c.dir == Dir::Left {
                lemma_block_at(tokens, next, false);
            }
        },
    }
}

/// The statements of a block that was read can be compiled, the
/// instruction that closes it is a purple right or, where that is allowed,
/// a purple down, and the block ends behind the position where it starts.
pub proof fn lemma_block_at(tokens: Seq<Token>, pos: int, allow_else: bool)
    ensures
        block_at(tokens, pos, allow_else) matches Ok((body, closer, done)) ==> all_well_nested(
            body,
        ) && (purple(closer, Dir::Right) || (allow_else && purple(closer, Dir::Down))) && pos
            < done <= tokens.len(),
    decreases tokens.len() - pos, 1int,
{
    lemma_command_at(tokens, pos);
    match command_at(tokens, pos) {
        Err(_) => {},
        Ok((c, next)) => {
            if c.closes() || (c.turns() && allow_else) {
            } else {
                lemma_statement_at(tokens, pos);
                match statement_at(tokens, pos) {
                    Err(_) => {},
                    Ok((t, p)) => {
                        if pos < p <= tokens.len() {
                            lemma_block_at(tokens, p, allow_else);
                        }
                    },
                }
            }
        },
    }
}

/// The statements of a program that was read can be compiled.
pub proof fn lemma_program_at(tokens: Seq<Token>, pos: int)
    ensures
        program_at(tokens, pos) matches Ok(program) ==> all_well_nested(program),
    decreases tokens.len() - pos,
{
    if pos < tokens.len() {
        lemma_statement_at(tokens, pos);
        match statement_at(tokens, pos) {
            Err(_) => {},
            Ok((t, p)) => {
                if pos < p <= tokens.len() {
                    lemma_program_at(tokens, p);
                }
            },
        }
    }
}

/// The token at `pos`.
fn next(tokens: &Vec<Token>, pos: usize) -> (r: Result<Token, Error>)
    ensures
        match r {
            Ok(t) => pos < tokens.len() && t == tokens[pos as int],
            Err(e) => pos >= tokens.len() && e == Error::UnexpectedEof,
        },
{
    if pos < tokens.len() {
        Ok(tokens[pos])
    } else {
        Err(Error::UnexpectedEof)
    }
}

fn parse_number(tokens: &Vec<Token>, pos: usize, color: Stone) -> (r: Result<
    (Option<Number>, usize),
    Error,
>)
    requires
        pos <= tokens.len(),
    ensures
        match number_at(tokens@, pos as int, color) {
            Ok((n, p)) => r == Ok::<(Option<Number>, usize), Error>((n, p as usize)) && pos <= p
                <= tokens.len() && p <= pos + 1,
            Err(f) => r matches Err(e) && e@ == f,
        },
{
    if !color.has_number() {
        return Ok((None, pos));
    }
    let number_token = match next(tokens, pos) {
        Ok(t) => t,
        Err(e) => {
            return Err(e);
        },
    };
    if !number_token.is_number() {
        return Err(Error::ExpectedNumber { got: number_token });
    }
    let number = match color {
        Stone::Red => match RedNumber::try_from(number_token) {
            Ok(n) => EitherNumber::Red(n),
            Err(e) => {
                return Err(e);
            },
        },
        _ => match OrangeNumber::try_from(number_token) {
            Ok(n) => EitherNumber::Orange(n),
            Err(e) => {
                return Err(e);
            },
        },
    };
    Ok((Some(Number { number, number_token }), pos + 1))
}

fn consume_command(tokens: &Vec<Token>, pos: usize) -> (r: Result<(AstCommand, usize), Error>)
    ensures
        match command_at(tokens@, pos as int) {
            Ok((c, p)) => r == Ok::<(AstCommand, usize), Error>((c, p as usize)) && pos < p
                <= tokens.len(),
            Err(f) => r matches Err(e) && e@ == f,
        },
{
    let color_token = match next(tokens, pos) {
        Ok(t) => t,
        Err(e) => {
            return Err(e);
        },
    };
    let color = match Stone::try_from(color_token) {
        Ok(c) => c,
        Err(e) => {
            return Err(e);
        },
    };
    let dir_token = match next(tokens, pos + 1) {
        Ok(t) => t,
        Err(e) => {
            return Err(e);
        },
    };
    let dir = match Dir::try_from(dir_token) {
        Ok(d) => d,
        Err(e) => {
            return Err(e);
        },
    };
    let (number, after) = match parse_number(tokens, pos + 2, color) {
        Ok(found) => found,
        Err(e) => {
            return Err(e);
        },
    };
    Ok((AstCommand { color, color_token, dir, dir_token, number }, after))
}

/// The failure of a purple right or a purple down that closes nothing and
/// whose first token has the index `pos`.
fn refuse(dir: Dir, pos: usize) -> (e: Error)
    ensures
        e@ == (Failure::SyntaxError { why: unmatched(dir, pos as int) }),
{
    let mut why = if dir == Dir::Down {
        "purple Down without corresponding purple up or purple left".to_owned()
    } else {
        "purple Right without corresponding purple up or purple left".to_owned()
    };
    why.append(" at token ");
    append_digits(&mut why, pos);
    Error::SyntaxError { why }
}

fn parse_block(tokens: &Vec<Token>, pos: usize, allow_else: bool) -> (r: Result<
    (Vec<Ast>, AstCommand, usize),
    Error,
>)
    requires
        pos <= tokens.len(),
    ensures
        match block_at(tokens@, pos as int, allow_else) {
            Ok((body, closer, done)) => r matches Ok(found) && trees(found.0@) == body && found.1
                == closer && found.2 == done && pos < done <= tokens.len(),
            Err(f) => r matches Err(e) && e@ == f,
        },
    decreases tokens.len() - pos, 1int,
{
    let mut body: Vec<Ast> = Vec::new();
    let mut at = pos;
    let ghost whole = block_at(tokens@, pos as int, allow_else);
    proof {
        assert(trees(body@) =~= Seq::<Tree>::empty());
        match whole {
            Ok((b, c, d)) => assert(Seq::<Tree>::empty() + b =~= b),
            Err(_) => {},
        }
    }
    loop
        invariant
            pos <= at <= tokens.len(),
            whole == block_at(tokens@, pos as int, allow_else),
            whole == block_after(trees(body@), block_at(tokens@, at as int, allow_else)),
        decreases tokens.len() - at,
    {
        let ghost here = block_at(tokens@, at as int, allow_else);
        let (command, after) = match consume_command(tokens, at) {
            Ok(found) => found,
            Err(e) => {
                return Err(e);
            },
        };
        if command.is_end() || (allow_else && command.is_else()) {
            proof {
                assert(trees(body@) + Seq::<Tree>::empty() =~= trees(body@));
            }
            return Ok((body, command, after));
        }
        let (statement, following) = match parse_statement_rec(tokens, at) {
            Ok(found) => found,
            Err(e) => {
                return Err(e);
            },
        };
        proof {
            let rest = block_at(tokens@, following as int, allow_else);
            lemma_trees_push(body@, statement);
            match rest {
                Ok((b, c, d)) => {
                    assert(trees(body@) + (seq![statement@] + b) =~= trees(body@).push(
                        statement@,
                    ) + b);
                },
                Err(_) => {},
            }
        }
        body.push(statement);
        at = following;
    }
}

/// Parses the statement that starts at `pos`.
fn parse_statement_rec(tokens: &Vec<Token>, pos: usize) -> (r: Result<(Ast, usize), Error>)
    ensures
        match statement_at(tokens@, pos as int) {
            Ok((t, p)) => r matches Ok(found) && found.0@ == t && found.1 == p && pos < p
                <= tokens.len(),
            Err(f) => r matches Err(e) && e@ == f,
        },
    decreases tokens.len() - pos, 0int,
{
    let (command, after) = match consume_command(tokens, pos) {
        Ok(found) => found,
        Err(e) => {
            return Err(e);
        },
    };
    if command.color == Stone::Purple && command.dir == Dir::Up {
        let (body, closer, after_body) = match parse_block(tokens, after, true) {
            Ok(found) => found,
            Err(e) => {
                return Err(e);
            },
        };
        if !closer.is_else() {
            return Ok((Ast::PurpleUp { begin: command, body, else_: None, end: closer }, after_body));
        }
        let (second, end, done) = match parse_block(tokens, after_body, false) {
            Ok(found) => found,
            Err(e) => {
                return Err(e);
            },
        };
        Ok(
            (
                Ast::PurpleUp {
                    begin: command,
                    body,
                    else_: Some(Else { else_: closer, body: second }),
                    end,
                },
                done,
            ),
        )
    } else if command.color == Stone::Purple && command.dir == Dir::Left {
        let (body, end, done) = match parse_block(tokens, after, false) {
            Ok(found) => found,
            Err(e) => {
                return Err(e);
            },
        };
        Ok((Ast::PurpleLeft { begin: command, body, end }, done))
    } else if command.color == Stone::Purple {
        Err(refuse(command.dir, pos))
    } else {
        Ok((Ast::Normal { command }, after))
    }
}

/// Parses one statement at `pos`, outside every block.
fn parse_statement(tokens: &Vec<Token>, pos: usize) -> (r: Result<(Ast, usize), Error>)
    ensures
        match statement_at(tokens@, pos as int) {
            Ok((t, p)) => r matches Ok(found) && found.0@ == t && found.1 == p && pos < p
                <= tokens.len(),
            Err(f) => r matches Err(e) && e@ == f,
        },
{
    parse_statement_rec(tokens, pos)
}

/// Parses the tokens of a program into its statements.
pub fn parse_tokens(tokens: &Vec<Token>) -> (r: Result<Vec<Ast>, Error>)
    ensures
        match program_at(tokens@, 0) {
            Ok(program) => r matches Ok(ast) && trees(ast@) == program && all_well_nested(
                trees(ast@),
            ),
            Err(f) => r matches Err(e) && e@ == f,
        },
{
    proof {
        lemma_program_at(tokens@, 0);
    }
    let mut ast: Vec<Ast> = Vec::new();
    let mut at: usize = 0;
    let ghost whole = program_at(tokens@, 0);
    proof {
        assert(trees(ast@) =~= Seq::<Tree>::empty());
        match whole {
            Ok(b) => assert(Seq::<Tree>::empty() + b =~= b),
            Err(_) => {},
        }
    }
    while at < tokens.len()
        invariant
            at <= tokens.len(),
            whole == program_at(tokens@, 0),
            whole == program_after(trees(ast@), program_at(tokens@, at as int)),
        decreases tokens.len() - at,
    {
        let (statement, following) = match parse_statement(tokens, at) {
            Ok(found) => found,
            Err(e) => {
                return Err(e);
            },
        };
        proof {
            let rest = program_at(tokens@, following as int);
            lemma_trees_push(ast@, statement);
            match rest {
                Ok(b) => {
                    assert(trees(ast@) + (seq![statement@] + b) =~= trees(ast@).push(statement@)
                        + b);
                },
                Err(_) => {},
            }
        }
        ast.push(statement);
        at = following;
    }
    proof {
        assert(trees(ast@) + Seq::<Tree>::empty() =~= trees(ast@));
    }
    Ok(ast)
}

/// Scans and parses a source text.
pub fn parse(source: &str) -> (r: Result<Vec<Ast>, Error>)
    ensures
        match program_at(scanned(source@), 0) {
            Ok(program) => r matches Ok(ast) && trees(ast@) == program && all_well_nested(
                trees(ast@),
            ),
            Err(f) => r matches Err(e) && e@ == f,
        },
{
    let tokens = scan(source);
    parse_tokens(&tokens)
}

} // verus!
