use vstd::prelude::*;

use crate::command::{Command, Stone};
use crate::error::Error;
use crate::field::{distinct, present, rect, resolve, Field, Grid};
use crate::text::{number_of, trimmed};
use crate::value::{Content, Order};
use crate::vm::{valid_program, Comparison, Math, Opcode, Operation};

verus! {

/// Something the machine has written: text that the program printed, or,
/// where tracing is on, the operation about to run, the field or the stack.
pub enum Shown {
    Text(Seq<char>),
    Operation { ip: usize, command: Command, opcode: Opcode },
    Field(Grid),
    Stack(Seq<Content>),
}

/// What a comparison yields. The first value popped is `lhs`. `LessThan`
/// holds where `lhs` is not less than `rhs` and not equal to it, and
/// `GreaterThan` where `lhs` is not greater and not equal: each is the
/// reverse of its name, and both hold of two values that cannot be compared.
pub open spec fn compared(c: Comparison, lhs: Content, rhs: Content) -> bool {
    match c {
        Comparison::Equal => lhs == rhs,
        Comparison::LessThan => lhs.compare(rhs) != Some(Order::Less) && lhs != rhs,
        Comparison::GreaterThan => lhs.compare(rhs) != Some(Order::Greater) && lhs != rhs,
    }
}

/// The quotient of `x` by `d`, rounded towards zero.
pub open spec fn quotient(x: int, d: int) -> int {
    if x == 0 {
        0
    } else if x > 0 && d > 0 {
        x / d
    } else if x < 0 && d < 0 {
        (x * -1) / (d * -1)
    } else if x < 0 {
        ((x * -1) / d) * -1
    } else {
        (x / (d * -1)) * -1
    }
}

/// What an arithmetic opcode computes from the first value popped, `lhs`,
/// and the second, `rhs`: a 64-bit number, or the reason why there is none.
pub open spec fn computed(m: Math, lhs: int, rhs: int) -> Result<int, Error> {
    let exact = match m {
        Math::Multiply => lhs * rhs,
        Math::Add => lhs + rhs,
        Math::Subtract => lhs - rhs,
        Math::Divide => quotient(lhs, rhs),
    };
    if m == Math::Divide && rhs == 0 {
        Err(Error::DivisionByZero)
    } else if i64::MIN <= exact <= i64::MAX {
        Ok(exact)
    } else {
        Err(Error::Overflow)
    }
}

/// The stack `s` after its top has been moved beneath the `d` values
/// that lay under it.
pub open spec fn rolled(s: Seq<Content>, d: int) -> Seq<Content> {
    let k = s.len() as int;
    s.take(k - d - 1).push(s[k - 1]) + s.subrange(k - d - 1, k - 1)
}

/// The value that a line of input stands for: an integer of 64 bits, or
/// `true` or `false`, with white space around it.
pub open spec fn read_value(line: Seq<char>) -> Option<Content> {
    let t = trimmed(line);
    match number_of(t) {
        Some(v) if i64::MIN <= v <= i64::MAX => Some(Content::Num(v)),
        _ => if t == "true"@ {
            Some(Content::Bool(true))
        } else if t == "false"@ {
            Some(Content::Bool(false))
        } else {
            None
        },
    }
}

/// The failure of an operand that is not of the kind `wanted`.
pub open spec fn mismatch(wanted: &'static str, got: Content) -> Error {
    Error::TypeMismatch { wanted, got: got.kind_name() }
}

/// The state of the machine, as mathematics.
pub struct Machine {
    pub program: Seq<Operation>,
    /// The index of the next operation to fetch.
    pub ip: usize,
    pub stack: Seq<Content>,
    /// The array that is being filled, if one is open.
    pub buffer: Option<Seq<Content>>,
    pub grid: Grid,
    /// The commands that the last move realized and that have not run yet.
    pub pending: Seq<Command>,
    /// The compiled opcode of the operation that `pending` came from.
    pub compiled: Opcode,
    /// The line of input that was handed over and has not been read yet.
    pub input: Option<Seq<char>>,
    /// Everything written and not yet taken away.
    pub output: Seq<Shown>,
}

impl Machine {
    /// The machine before the first step of `program`.
    pub open spec fn start(program: Seq<Operation>) -> Machine {
        Machine {
            program,
            ip: 0,
            stack: Seq::empty(),
            buffer: None,
            grid: Field::<12, 6>::initial(),
            pending: Seq::empty(),
            compiled: Opcode::Die,
            input: None,
            output: Seq::empty(),
        }
    }

    /// Every stone lies on the field exactly once, the program can run,
    /// and so can what is pending.
    pub open spec fn wf(self) -> bool {
        &&& rect(self.grid, 12, 6)
        &&& distinct(self.grid)
        &&& forall|s: Stone| s != Stone::__ ==> #[trigger] present(self.grid, s)
        &&& valid_program(self.program)
        &&& forall|i: int|
            0 <= i < self.pending.len() ==> (Operation {
                command: #[trigger] self.pending[i],
                opcode: self.compiled,
            }).wf()
    }

    /// Nothing is left to do.
    pub open spec fn halted(self) -> bool {
        self.pending.len() == 0 && self.ip >= self.program.len()
    }

    /// What `op` does to the machine, or why it fails. A failure leaves
    /// the machine as it was.
    #[verifier::opaque]
    pub open spec fn effect(self, op: Opcode) -> Result<Machine, Error> {
        let n = self.stack.len() as int;
        match op {
            Opcode::PushNumber(v) => Ok(
                Machine { stack: self.stack.push(Content::Num(v as int)), ..self },
            ),
            Opcode::PushBool(b) => Ok(Machine { stack: self.stack.push(Content::Bool(b)), ..self }),
            Opcode::StartArray => Ok(Machine { buffer: Some(Seq::empty()), ..self }),
            Opcode::PushArray => match self.buffer {
                None => Err(Error::NoArrayInProgress),
                Some(items) => Ok(
                    Machine { stack: self.stack.push(Content::Arr(items)), buffer: None, ..self },
                ),
            },
            Opcode::EndArray => match self.buffer {
                None => Err(Error::NoArrayInProgress),
                Some(items) => if n == 0 {
                    Err(Error::StackUnderflow)
                } else {
                    Ok(
                        Machine {
                            stack: self.stack.drop_last(),
                            buffer: Some(items.push(self.stack.last())),
                            ..self
                        },
                    )
                },
            },
            Opcode::NthArray => if n == 0 {
                Err(Error::StackUnderflow)
            } else {
                match self.stack[n - 1] {
                    Content::Num(i) => if n == 1 {
                        Err(Error::StackUnderflow)
                    } else {
                        match self.stack[n - 2] {
                            Content::Arr(items) => if 0 <= i < items.len() {
                                Ok(Machine { stack: self.stack.drop_last().push(items[i]), ..self })
                            } else {
                                Err(
                                    Error::IndexOutOfRange {
                                        index: i as i64,
                                        len: items.len() as usize,
                                    },
                                )
                            },
                            other => Err(mismatch("array", other)),
                        }
                    },
                    other => Err(mismatch("number", other)),
                }
            },
            Opcode::Comparison(c) => if n < 2 {
                Err(Error::StackUnderflow)
            } else {
                Ok(
                    Machine {
                        stack: self.stack.take(n - 2).push(
                            Content::Bool(compared(c, self.stack[n - 1], self.stack[n - 2])),
                        ),
                        ..self
                    },
                )
            },
            Opcode::Quine => Err(Error::Quine),
            Opcode::Math(m) => if n == 0 {
                Err(Error::StackUnderflow)
            } else {
                match self.stack[n - 1] {
                    Content::Num(lhs) => if n == 1 {
                        Err(Error::StackUnderflow)
                    } else {
                        match self.stack[n - 2] {
                            Content::Num(rhs) => match computed(m, lhs, rhs) {
                                Ok(v) => Ok(
                                    Machine {
                                        stack: self.stack.take(n - 2).push(Content::Num(v)),
                                        ..self
                                    },
                                ),
                                Err(e) => Err(e),
                            },
                            other => Err(mismatch("number", other)),
                        }
                    },
                    other => Err(mismatch("number", other)),
                }
            },
            Opcode::Roll => if n == 0 {
                Err(Error::StackUnderflow)
            } else {
                match self.stack[n - 1] {
                    Content::Num(d) => if d <= 0 {
                        Ok(Machine { stack: self.stack.drop_last(), ..self })
                    } else if n - 1 < d + 1 {
                        Err(Error::StackUnderflow)
                    } else {
                        Ok(Machine { stack: rolled(self.stack.drop_last(), d), ..self })
                    },
                    other => Err(mismatch("number", other)),
                }
            },
            Opcode::Dup => if n == 0 {
                Err(Error::StackUnderflow)
            } else {
                Ok(Machine { stack: self.stack.push(self.stack.last()), ..self })
            },
            Opcode::Drop => if n == 0 {
                Err(Error::StackUnderflow)
            } else {
                Ok(Machine { stack: self.stack.drop_last(), ..self })
            },
            Opcode::Not => if n == 0 {
                Err(Error::StackUnderflow)
            } else {
                Ok(
                    Machine {
                        stack: self.stack.drop_last().push(
                            Content::Bool(!self.stack.last().truthy()),
                        ),
                        ..self
                    },
                )
            },
            Opcode::Print => if n == 0 {
                Err(Error::StackUnderflow)
            } else {
                Ok(
                    Machine {
                        stack: self.stack.drop_last(),
                        output: self.output.push(Shown::Text(self.stack.last().num_text())),
                        ..self
                    },
                )
            },
            Opcode::Input => match self.input {
                None => Err(Error::InputNeeded),
                Some(line) => match read_value(line) {
                    Some(v) => Ok(Machine { stack: self.stack.push(v), input: None, ..self }),
                    None => Err(Error::ParseError),
                },
            },
            Opcode::Printc => if n == 0 {
                Err(Error::StackUnderflow)
            } else {
                Ok(
                    Machine {
                        stack: self.stack.drop_last(),
                        output: self.output.push(Shown::Text(self.stack.last().char_text())),
                        ..self
                    },
                )
            },
            Opcode::Swap => if n < 2 {
                Err(Error::StackUnderflow)
            } else {
                Ok(
                    Machine {
                        stack: self.stack.take(n - 2).push(self.stack[n - 1]).push(
                            self.stack[n - 2],
                        ),
                        ..self
                    },
                )
            },
            Opcode::JumpFalse(target) => if n == 0 {
                Err(Error::StackUnderflow)
            } else {
                Ok(
                    Machine {
                        stack: self.stack.drop_last(),
                        ip: if self.stack.last().truthy() {
                            self.ip
                        } else {
                            target
                        },
                        ..self
                    },
                )
            },
            Opcode::JumpForward(target) => Ok(Machine { ip: target, ..self }),
            Opcode::JumpBackward(target) => Ok(Machine { ip: target, ..self }),
            Opcode::Die => Ok(self),
        }
    }

    /// A step waits for input exactly where `Input` runs and no line has
    /// been handed over.
    pub proof fn lemma_input_needed(self, op: Opcode)
        ensures
            self.effect(op) == Err::<Machine, Error>(Error::InputNeeded) <==> op == Opcode::Input
                && self.input is None,
    {
        reveal(Machine::effect);
    }

    /// An opcode touches neither the program nor the field nor what is
    /// pending.
    pub proof fn lemma_effect_keeps(self, op: Opcode)
        ensures
            self.effect(op) matches Ok(m) ==> m.program == self.program && m.grid == self.grid
                && m.pending == self.pending && m.compiled == self.compiled,
    {
        reveal(Machine::effect);
    }

    /// The opcode that runs for the pending command `command`: its own,
    /// or the compiled one where it has none.
    pub open spec fn opcode_of(self, command: Command) -> Opcode {
        match command.spec_opcode() {
            Some(op) => op,
            None => self.compiled,
        }
    }

    /// The machine with `event` written, where `on` is set.
    pub open spec fn traced(self, on: bool, event: Shown) -> Machine {
        if on {
            Machine { output: self.output.push(event), ..self }
        } else {
            self
        }
    }

    /// One step. With a command pending, its opcode runs: a failure drops
    /// what else is pending, except that a missing line of input changes
    /// nothing at all. With nothing pending, the next operation is fetched
    /// and its move is attempted on the field; what the move realizes is
    /// pending from then on. A halted machine stays as it is.
    pub open spec fn step(self, print_op: bool, print_field: bool, print_stack: bool) -> (
        Machine,
        Option<Error>,
    ) {
        if self.pending.len() > 0 {
            let command = self.pending[0];
            let opcode = self.opcode_of(command);
            let announced = self.traced(
                print_op,
                Shown::Operation { ip: self.ip, command, opcode },
            );
            match announced.effect(opcode) {
                Err(Error::InputNeeded) => (self, Some(Error::InputNeeded)),
                Err(e) => (Machine { pending: Seq::empty(), ..announced }, Some(e)),
                Ok(done) => {
                    let rest = Machine { pending: self.pending.drop_first(), ..done };
                    let with_field = rest.traced(print_field, Shown::Field(rest.grid));
                    (with_field.traced(print_stack, Shown::Stack(rest.stack)), None)
                },
            }
        } else if self.ip < self.program.len() {
            let operation = self.program[self.ip as int];
            let moved = resolve(self.grid, operation.command);
            (
                Machine {
                    ip: (self.ip + 1) as usize,
                    grid: moved.grid,
                    pending: moved.commands,
                    compiled: operation.opcode,
                    ..self
                },
                None,
            )
        } else {
            (self, None)
        }
    }

    /// Up to `fuel` steps, ending early where the machine halts or a step
    /// fails.
    pub open spec fn run(
        self,
        print_op: bool,
        print_field: bool,
        print_stack: bool,
        fuel: nat,
    ) -> (Machine, Option<Error>)
        decreases fuel,
    {
        if fuel == 0 || self.halted() {
            (self, None)
        } else {
            let (next, failure) = self.step(print_op, print_field, print_stack);
            if failure is Some {
                (next, failure)
            } else {
                next.run(print_op, print_field, print_stack, (fuel - 1) as nat)
            }
        }
    }
}

/// Every step keeps the machine well formed: each of the six stones stays
/// on exactly one cell of the field, and what is pending can run.
pub proof fn lemma_step_keeps_wf(m: Machine, print_op: bool, print_field: bool, print_stack: bool)
    requires
        m.wf(),
    ensures
        m.step(print_op, print_field, print_stack).0.wf(),
{
    let next = m.step(print_op, print_field, print_stack).0;
    if m.pending.len() > 0 {
        let command = m.pending[0];
        let opcode = m.opcode_of(command);
        let announced = m.traced(
            print_op,
            Shown::Operation { ip: m.ip, command, opcode },
        );
        announced.lemma_effect_keeps(opcode);
        assert forall|i: int| 0 <= i < next.pending.len() implies (Operation {
            command: #[trigger] next.pending[i],
            opcode: next.compiled,
        }).wf() by {
            if announced.effect(opcode) is Ok {
                assert(next.pending[i] == m.pending[i + 1]);
            }
        }
    } else if m.ip < m.program.len() {
        let operation = m.program[m.ip as int];
        assert(operation.wf());
        assert(present(m.grid, operation.command.color));
        crate::field::lemma_resolve(m.grid, operation.command);
        let moved = resolve(m.grid, operation.command);
        assert forall|s: Stone| s != Stone::__ implies #[trigger] present(next.grid, s) by {
            assert(present(m.grid, s));
        }
        assert forall|i: int| 0 <= i < next.pending.len() implies (Operation {
            command: #[trigger] next.pending[i],
            opcode: next.compiled,
        }).wf() by {
            let c = moved.commands[i];
            assert(c.wf());
            if c.color == Stone::Purple {
                if i < moved.commands.len() - 1 {
                    assert(moved.commands.drop_last()[i] == c);
                } else {
                    assert(c == moved.commands.last());
                }
            }
        }
    }
}

/// However long the machine runs, it stays well formed.
pub proof fn lemma_run_keeps_wf(
    m: Machine,
    print_op: bool,
    print_field: bool,
    print_stack: bool,
    fuel: nat,
)
    requires
        m.wf(),
    ensures
        m.run(print_op, print_field, print_stack, fuel).0.wf(),
    decreases fuel,
{
    if fuel > 0 && !m.halted() {
        lemma_step_keeps_wf(m, print_op, print_field, print_stack);
        let (next, failure) = m.step(print_op, print_field, print_stack);
        if failure is None {
            lemma_run_keeps_wf(next, print_op, print_field, print_stack, (fuel - 1) as nat);
        }
    }
}

/// Arithmetic takes the value pushed last as its left operand: after `a`
/// and then `b` were pushed, `Subtract` leaves `b - a`, and so for the
/// other three.
pub proof fn lemma_math_operands(m: Machine, op: Math, a: int, b: int)
    requires
        m.stack.len() >= 2,
        m.stack[m.stack.len() - 2] == Content::Num(a),
        m.stack[m.stack.len() - 1] == Content::Num(b),
    ensures
        m.effect(Opcode::Math(op)) == match computed(op, b, a) {
            Ok(v) => Ok::<Machine, Error>(
                Machine { stack: m.stack.take(m.stack.len() - 2).push(Content::Num(v)), ..m },
            ),
            Err(e) => Err(e),
        },
        op == Math::Subtract && i64::MIN <= b - a <= i64::MAX ==> computed(op, b, a) == Ok::<
            int,
            Error,
        >(b - a),
{
    reveal(Machine::effect);
}

/// Of two numbers, with `lhs` the one popped first: `Equal` tells whether
/// they are the same, `LessThan` whether `lhs` is the greater one, and
/// `GreaterThan` whether `lhs` is the smaller one.
pub proof fn lemma_comparison_inverted(lhs: int, rhs: int)
    ensures
        compared(Comparison::Equal, Content::Num(lhs), Content::Num(rhs)) == (lhs == rhs),
        compared(Comparison::LessThan, Content::Num(lhs), Content::Num(rhs)) == (lhs > rhs),
        compared(Comparison::GreaterThan, Content::Num(lhs), Content::Num(rhs)) == (lhs < rhs),
{
}

/// A comparison pops two values, the left operand first, and pushes what
/// `compared` says of them.
pub proof fn lemma_comparison(m: Machine, c: Comparison)
    requires
        m.stack.len() >= 2,
    ensures
        m.effect(Opcode::Comparison(c)) == Ok::<Machine, Error>(
            Machine {
                stack: m.stack.take(m.stack.len() - 2).push(
                    Content::Bool(
                        compared(c, m.stack[m.stack.len() - 1], m.stack[m.stack.len() - 2]),
                    ),
                ),
                ..m
            },
        ),
{
    reveal(Machine::effect);
}

/// `Swap` undoes itself: run twice, it leaves the machine as it was.
pub proof fn lemma_swap_twice(m: Machine)
    requires
        m.stack.len() >= 2,
    ensures
        m.effect(Opcode::Swap) matches Ok(once) && once.effect(Opcode::Swap) == Ok::<
            Machine,
            Error,
        >(m),
{
    reveal(Machine::effect);
    let n = m.stack.len() as int;
    let once = m.effect(Opcode::Swap)->Ok_0;
    let twice = once.effect(Opcode::Swap)->Ok_0;
    assert(once.stack.len() == n);
    assert(twice.stack =~= m.stack);
}

/// The operation that closes a `while` leads back to the one that opens
/// it: once its jump has run, the next step attempts the move of the
/// opening instruction on the field again, and what that move realizes is
/// pending, the guard of the loop among it.
pub proof fn lemma_loop_revisits(
    m: Machine,
    target: usize,
    print_op: bool,
    print_field: bool,
    print_stack: bool,
)
    requires
        m.pending.len() == 1,
        m.pending[0].color == Stone::Purple,
        m.compiled == Opcode::JumpBackward(target),
        target < m.program.len(),
    ensures
        ({
            let (jumped, failure) = m.step(print_op, print_field, print_stack);
            let (again, second) = jumped.step(print_op, print_field, print_stack);
            let moved = resolve(m.grid, m.program[target as int].command);
            &&& failure is None
            &&& jumped.ip == target
            &&& jumped.pending.len() == 0
            &&& jumped.grid == m.grid
            &&& second is None
            &&& again.grid == moved.grid
            &&& again.pending == moved.commands
            &&& again.compiled == m.program[target as int].opcode
            &&& again.ip == (target + 1) as usize
        }),
{
    reveal(Machine::effect);
    let command = m.pending[0];
    assert(command.spec_opcode() is None);
    assert(m.pending.drop_first() =~= Seq::<Command>::empty());
}

} // verus!
