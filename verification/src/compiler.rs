use vstd::prelude::*;

use crate::ast::{trees, Ast, AstCommand, Else, Tree};
use crate::command::{Command, Dir, Stone};
use crate::vm::{valid_program, Opcode, Operation};

verus! {

/// The instruction is the purple one that moves in direction `dir`.
pub open spec fn purple(c: AstCommand, dir: Dir) -> bool {
    c.color == Stone::Purple && c.dir == dir && c.number is None
}

/// The statement can be compiled: every single instruction is well formed
/// and not purple, every `while` runs from purple left to purple right, and
/// every `if` from purple up to purple right, with purple down between its
/// two blocks.
pub open spec fn well_nested(t: Tree) -> bool
    decreases t,
{
    match t {
        Tree::Normal { command } => command.command().wf() && command.color != Stone::Purple,
        Tree::While { begin, body, end } => purple(begin, Dir::Left) && purple(end, Dir::Right)
            && all_well_nested(body),
        Tree::If { begin, body, other, end } => purple(begin, Dir::Up) && purple(end, Dir::Right)
            && all_well_nested(body) && match other {
            Some((turn, second)) => purple(turn, Dir::Down) && all_well_nested(second),
            None => true,
        },
    }
}

/// Every statement of `s` can be compiled.
pub open spec fn all_well_nested(s: Seq<Tree>) -> bool
    decreases s,
{
    forall|i: int| 0 <= i < s.len() ==> well_nested(#[trigger] s[i])
}

/// The number of operations that the statement compiles to.
pub open spec fn size(t: Tree) -> nat
    decreases t,
{
    match t {
        Tree::Normal { .. } => 1,
        Tree::While { body, .. } => 2 + sizes(body),
        Tree::If { body, other, .. } => match other {
            Some((_, second)) => 3 + sizes(body) + sizes(second),
            None => 2 + sizes(body),
        },
    }
}

/// The number of operations that the statements of `s` compile to.
pub open spec fn sizes(s: Seq<Tree>) -> nat
    decreases s,
{
    if s.len() == 0 {
        0
    } else {
        sizes(s.drop_last()) + size(s.last())
    }
}

/// The operation of an instruction with the opcode `opcode`.
pub open spec fn operation(c: AstCommand, opcode: Opcode) -> Operation {
    Operation { command: c.command(), opcode }
}

/// The operations of the statement `t`, where the first of them stands at
/// index `at` of the program.
///
/// A single instruction gives one operation with its own opcode. A `while`
/// opens with a jump, taken when the guard is not truthy, to just behind
/// its closing operation, and closes with a jump back to its opening
/// operation. An `if` opens with a jump, taken when the guard is not
/// truthy, to its closing operation or, where it has one, to the first
/// operation of its second block; the purple down before the second block
/// jumps to the closing operation; the closing operation jumps to the
/// operation behind it, which changes nothing.
pub open spec fn emitted(t: Tree, at: nat) -> Seq<Operation>
    decreases t,
{
    match t {
        Tree::Normal { command } => seq![
            operation(
                command,
                match command.command().spec_opcode() {
                    Some(op) => op,
                    None => Opcode::Die,
                },
            ),
        ],
        Tree::While { begin, body, end } => {
            let last = at + 1 + sizes(body);
            seq![operation(begin, Opcode::JumpFalse((last + 1) as usize))] + emitted_all(
                body,
                at + 1,
            ) + seq![operation(end, Opcode::JumpBackward(at as usize))]
        },
        Tree::If { begin, body, other, end } => match other {
            None => {
                let last = at + 1 + sizes(body);
                seq![operation(begin, Opcode::JumpFalse(last as usize))] + emitted_all(
                    body,
                    at + 1,
                ) + seq![operation(end, Opcode::JumpForward((last + 1) as usize))]
            },
            Some((turn, second)) => {
                let middle = at + 1 + sizes(body);
                let last = middle + 1 + sizes(second);
                seq![operation(begin, Opcode::JumpFalse((middle + 1) as usize))] + emitted_all(
                    body,
                    at + 1,
                ) + seq![operation(turn, Opcode::JumpForward(last as usize))] + emitted_all(
                    second,
                    middle + 1,
                ) + seq![operation(end, Opcode::JumpForward((last + 1) as usize))]
            },
        },
    }
}

/// The operations of the statements of `s`, one after the other, where
/// the first of them stands at index `at` of the program.
pub open spec fn emitted_all(s: Seq<Tree>, at: nat) -> Seq<Operation>
    decreases s,
{
    if s.len() == 0 {
        Seq::empty()
    } else {
        emitted_all(s.drop_last(), at) + emitted(s.last(), at + sizes(s.drop_last()))
    }
}

/// A statement compiles to as many operations as its size says, and each
/// of them can run.
pub proof fn lemma_emitted(t: Tree, at: nat)
    requires
        well_nested(t),
    ensures
        emitted(t, at).len() == size(t),
        valid_program(emitted(t, at)),
    decreases t, 0int,
{
    match t {
        Tree::Normal { command } => {},
        Tree::While { begin, body, end } => {
            lemma_emitted_all(body, at + 1);
        },
        Tree::If { begin, body, other, end } => {
            lemma_emitted_all(body, at + 1);
            match other {
                Some((turn, second)) => {
                    lemma_emitted_all(second, at + 1 + sizes(body) + 1);
                },
                None => {},
            }
        },
    }
}

/// Statements compile to as many operations as their sizes say, and each
/// of them can run.
pub proof fn lemma_emitted_all(s: Seq<Tree>, at: nat)
    requires
        all_well_nested(s),
    ensures
        emitted_all(s, at).len() == sizes(s),
        valid_program(emitted_all(s, at)),
    decreases s, 1int,
{
    if s.len() > 0 {
        assert(all_well_nested(s.drop_last())) by {
            assert forall|i: int| 0 <= i < s.drop_last().len() implies well_nested(
                #[trigger] s.drop_last()[i],
            ) by {
                assert(s.drop_last()[i] == s[i]);
            }
        }
        lemma_emitted_all(s.drop_last(), at);
        assert(well_nested(s.last()));
        lemma_emitted(s.last(), at + sizes(s.drop_last()));
    }
}

/// A `while` compiles to its opening operation, its body and its closing
/// operation. The opening one jumps, when the guard is not truthy, to just
/// behind the closing one; the closing one jumps back to the opening one
/// itself, so that every turn of the loop attempts the opening move and
/// tests the guard again.
pub proof fn lemma_while(begin: AstCommand, body: Seq<Tree>, end: AstCommand, at: nat)
    requires
        well_nested(Tree::While { begin, body, end }),
    ensures
        ({
            let ops = emitted(Tree::While { begin, body, end }, at);
            &&& ops.len() == 2 + sizes(body)
            &&& ops[0] == operation(begin, Opcode::JumpFalse((at + ops.len()) as usize))
            &&& ops.subrange(1, ops.len() - 1) == emitted_all(body, at + 1)
            &&& ops.last() == operation(end, Opcode::JumpBackward(at as usize))
        }),
{
    lemma_emitted_all(body, at + 1);
    let ops = emitted(Tree::While { begin, body, end }, at);
    assert(ops.subrange(1, ops.len() - 1) =~= emitted_all(body, at + 1));
}

/// The statements `s` and the first `n + 1` of them.
proof fn lemma_emitted_step(s: Seq<Tree>, at: nat, n: int)
    requires
        0 <= n < s.len(),
    ensures
        emitted_all(s.take(n + 1), at) == emitted_all(s.take(n), at) + emitted(
            s[n],
            at + sizes(s.take(n)),
        ),
        sizes(s.take(n + 1)) == sizes(s.take(n)) + size(s[n]),
        all_well_nested(s) ==> all_well_nested(s.take(n)) && well_nested(s[n]),
{
    let t = s.take(n + 1);
    assert(t.drop_last() =~= s.take(n));
    assert(t.last() == s[n]);
    if all_well_nested(s) {
        assert forall|i: int| 0 <= i < s.take(n).len() implies well_nested(
            #[trigger] s.take(n)[i],
        ) by {
            assert(s.take(n)[i] == s[i]);
        }
    }
}

/// Whether the instruction is the purple one that moves in direction `dir`.
fn is_purple(c: &AstCommand, dir: Dir) -> (b: bool)
    ensures
        b == purple(*c, dir),
{
    c.color == Stone::Purple && c.dir == dir && c.number.is_none()
}

/// Whether the statement can be compiled.
pub fn is_well_nested(node: &Ast) -> (b: bool)
    ensures
        b == well_nested(node@),
    decreases node, 0int,
{
    match node {
        Ast::Normal { command } => {
            Command::from(*command).is_valid() && command.color != Stone::Purple
        },
        Ast::PurpleLeft { begin, body, end } => {
            is_purple(begin, Dir::Left) && is_purple(end, Dir::Right) && can_compile(body)
        },
        Ast::PurpleUp { begin, body, else_, end } => {
            is_purple(begin, Dir::Up) && is_purple(end, Dir::Right) && can_compile(body)
                && match else_ {
                Some(Else { else_: turn, body: second }) => is_purple(turn, Dir::Down)
                    && can_compile(second),
                None => true,
            }
        },
    }
}

/// Whether every statement of `nodes` can be compiled.
pub fn can_compile(nodes: &Vec<Ast>) -> (b: bool)
    ensures
        b == all_well_nested(trees(nodes@)),
    decreases nodes, 1int,
{
    let mut i: usize = 0;
    while i < nodes.len()
        invariant
            i <= nodes.len(),
            forall|j: int| 0 <= j < i ==> well_nested(#[trigger] trees(nodes@)[j]),
        decreases nodes.len() - i,
    {
        proof {
            vstd::std_specs::vec::axiom_vec_index_decreases(*nodes, i as int);
        }
        if !is_well_nested(&nodes[i]) {
            proof {
                assert(trees(nodes@)[i as int] == nodes[i as int]@);
            }
            return false;
        }
        proof {
            assert(trees(nodes@)[i as int] == nodes[i as int]@);
        }
        i += 1;
    }
    true
}

fn compile_normal(ops: &mut Vec<Operation>, command: AstCommand)
    requires
        well_nested(Tree::Normal { command }),
    ensures
        final(ops)@ == old(ops)@ + emitted(Tree::Normal { command }, old(ops).len() as nat),
{
    ops.push(Operation::from(Command::from(command)));
    proof {
        assert(ops@ =~= old(ops)@ + emitted(Tree::Normal { command }, old(ops).len() as nat));
    }
}

fn compile_nodes(ops: &mut Vec<Operation>, nodes: &Vec<Ast>)
    requires
        all_well_nested(trees(nodes@)),
    ensures
        final(ops)@ == old(ops)@ + emitted_all(trees(nodes@), old(ops).len() as nat),
    decreases nodes, 2int,
{
    let ghost all = trees(nodes@);
    let ghost base = ops.len() as nat;
    let mut i: usize = 0;
    proof {
        assert(all.take(0) =~= Seq::<Tree>::empty());
        assert(ops@ =~= old(ops)@ + emitted_all(all.take(0), base));
    }
    while i < nodes.len()
        invariant
            i <= nodes.len(),
            all == trees(nodes@),
            all_well_nested(all),
            base == old(ops).len(),
            ops@ == old(ops)@ + emitted_all(all.take(i as int), base),
            ops.len() == base + sizes(all.take(i as int)),
        decreases nodes.len() - i,
    {
        proof {
            lemma_emitted_step(all, base, i as int);
            lemma_emitted(all[i as int], base + sizes(all.take(i as int)));
            vstd::std_specs::vec::axiom_vec_index_decreases(*nodes, i as int);
        }
        compile_node(&nodes[i], ops);
        proof {
            assert(ops@ =~= old(ops)@ + emitted_all(all.take(i + 1), base));
        }
        i += 1;
    }
    proof {
        assert(all.take(i as int) =~= all);
    }
}

fn compile_while(ops: &mut Vec<Operation>, node: &Ast)
    requires
        node is PurpleLeft,
        well_nested(node@),
    ensures
        final(ops)@ == old(ops)@ + emitted(node@, old(ops).len() as nat),
    decreases node, 0int,
{
    match node {
        Ast::PurpleLeft { begin, body, end } => {
            let start = ops.len();
            let ghost inner = emitted_all(trees(body@), (start + 1) as nat);
            proof {
                lemma_emitted_all(trees(body@), (start + 1) as nat);
            }
            ops.push(Operation { command: Command::from(*begin), opcode: Opcode::Die });
            compile_nodes(ops, body);
            ops.push(
                Operation { command: Command::from(*end), opcode: Opcode::JumpBackward(start) },
            );
            let behind = ops.len();
            ops[start] = Operation {
                command: Command::from(*begin),
                opcode: Opcode::JumpFalse(behind),
            };
            proof {
                assert(ops@ =~= old(ops)@ + emitted(node@, start as nat));
            }
        },
        _ => {},
    }
}

fn compile_if(ops: &mut Vec<Operation>, node: &Ast)
    requires
        node is PurpleUp,
        well_nested(node@),
    ensures
        final(ops)@ == old(ops)@ + emitted(node@, old(ops).len() as nat),
    decreases node, 0int,
{
    match node {
        Ast::PurpleUp { begin, body, else_, end } => {
            let start = ops.len();
            proof {
                lemma_emitted_all(trees(body@), (start + 1) as nat);
            }
            ops.push(Operation { command: Command::from(*begin), opcode: Opcode::Die });
            compile_nodes(ops, body);
            match else_ {
                Some(Else { else_: turn, body: second }) => {
                    let middle = ops.len();
                    proof {
                        lemma_emitted_all(trees(second@), (middle + 1) as nat);
                    }
                    ops.push(Operation { command: Command::from(*turn), opcode: Opcode::Die });
                    compile_nodes(ops, second);
                    let last = ops.len();
                    ops.push(Operation { command: Command::from(*end), opcode: Opcode::Die });
                    let behind = ops.len();
                    ops[last] = Operation {
                        command: Command::from(*end),
                        opcode: Opcode::JumpForward(behind),
                    };
                    ops[start] = Operation {
                        command: Command::from(*begin),
                        opcode: Opcode::JumpFalse(middle + 1),
                    };
                    ops[middle] = Operation {
                        command: Command::from(*turn),
                        opcode: Opcode::JumpForward(last),
                    };
                    proof {
                        assert(ops@ =~= old(ops)@ + emitted(node@, start as nat));
                    }
                },
                None => {
                    let last = ops.len();
                    ops.push(Operation { command: Command::from(*end), opcode: Opcode::Die });
                    let behind = ops.len();
                    ops[last] = Operation {
                        command: Command::from(*end),
                        opcode: Opcode::JumpForward(behind),
                    };
                    ops[start] = Operation {
                        command: Command::from(*begin),
                        opcode: Opcode::JumpFalse(last),
                    };
                    proof {
                        assert(ops@ =~= old(ops)@ + emitted(node@, start as nat));
                    }
                },
            }
        },
        _ => {},
    }
}

fn compile_node(node: &Ast, ops: &mut Vec<Operation>)
    requires
        well_nested(node@),
    ensures
        final(ops)@ == old(ops)@ + emitted(node@, old(ops).len() as nat),
    decreases node, 1int,
{
    match node {
        Ast::PurpleLeft { .. } => compile_while(ops, node),
        Ast::PurpleUp { .. } => compile_if(ops, node),
        Ast::Normal { command } => compile_normal(ops, *command),
    }
}

/// Compiles the statements of a program into its operations, with every
/// jump set to the index it leads to.
pub fn compile(ast: &[Ast]) -> (ops: Vec<Operation>)
    requires
        all_well_nested(trees(ast@)),
    ensures
        ops@ == emitted_all(trees(ast@), 0),
        valid_program(ops@),
{
    let mut ops: Vec<Operation> = Vec::new();
    let ghost all = trees(ast@);
    let mut i: usize = 0;
    proof {
        assert(all.take(0) =~= Seq::<Tree>::empty());
    }
    while i < ast.len()
        invariant
            i <= ast.len(),
            all == trees(ast@),
            all_well_nested(all),
            ops@ == emitted_all(all.take(i as int), 0),
            ops.len() == sizes(all.take(i as int)),
        decreases ast.len() - i,
    {
        proof {
            lemma_emitted_step(all, 0, i as int);
            lemma_emitted(all[i as int], sizes(all.take(i as int)));
        }
        compile_node(&ast[i], &mut ops);
        i += 1;
    }
    proof {
        assert(all.take(i as int) =~= all);
        lemma_emitted_all(all, 0);
    }
    ops
}

} // verus!
