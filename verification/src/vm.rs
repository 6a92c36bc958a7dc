use vstd::prelude::*;

use crate::command::{Command, Stone};
use crate::error::Error;
use crate::field::{holds, present, Field};
use crate::machine::{lemma_step_keeps_wf, read_value, rolled, Machine, Shown};
use crate::text::{chars_of, parse_integer, same_text, trim};
use crate::value::{contents, Content, Order, Value};

verus! {

/// The three comparison primitives.
#[derive(Clone, Copy, Debug, PartialEq, Eq, Structural)]
pub enum Comparison {
    Equal,
    LessThan,
    GreaterThan,
}

/// The four arithmetic primitives.
#[derive(Clone, Copy, Debug, PartialEq, Eq, Structural)]
pub enum Math {
    Multiply,
    Add,
    Subtract,
    Divide,
}

/// A primitive operation of the machine. Where one pops two operands, the
/// first one popped is its left operand.
#[derive(Clone, Copy, Debug, PartialEq, Eq, Structural)]
pub enum Opcode {
    PushNumber(i64),
    PushBool(bool),
    /// Opens an empty array; one that was open is given up.
    StartArray,
    /// Closes the open array and pushes it.
    PushArray,
    /// Pops a value and puts it at the end of the open array.
    EndArray,
    /// Pops an index and pushes a copy of the item it names in the array
    /// that is then on top, which stays where it is.
    NthArray,
    /// Pops two values and pushes what the comparison says of them.
    Comparison(Comparison),
    /// Asks the caller for the source text of the program.
    Quine,
    /// Pops two numbers and pushes the result.
    Math(Math),
    /// Pops a count and moves the value then on top beneath as many
    /// values as the count says; a count that is not positive moves nothing.
    Roll,
    /// Pushes the top once more.
    Dup,
    /// Pops a value.
    Drop,
    /// Pops a value and pushes whether it is not truthy.
    Not,
    /// Pops a value and writes it as a number.
    Print,
    /// Pushes the value that a line of input stands for.
    Input,
    /// Pops a value and writes it as characters.
    Printc,
    /// Exchanges the two values on top.
    Swap,
    /// Head of an `if` or a `while`: pops the guard and jumps when it is not truthy.
    JumpFalse(usize),
    /// Unconditional jump towards the end of the program.
    JumpForward(usize),
    /// Unconditional jump back to the head of a `while`.
    JumpBackward(usize),
    /// Stands where no opcode has been set yet; never runs.
    Die,
}

/// A compiled instruction: the stone move to attempt and the opcode that
/// runs when the move itself carries none.
#[derive(Clone, Copy, Debug, PartialEq, Eq, Structural)]
pub struct Operation {
    pub command: Command,
    pub opcode: Opcode,
}

impl Operation {
    /// An operation can run: its command is well formed, and where the
    /// command stands for no opcode of its own, the compiled one is set.
    pub open spec fn wf(self) -> bool {
        &&& self.command.wf()
        &&& self.command.color == Stone::Purple ==> self.opcode != Opcode::Die
    }

    /// The placeholder that stands in a program until the real operation
    /// is known.
    pub fn die() -> (op: Operation)
        ensures
            op == (Operation { command: Command::empty(), opcode: Opcode::Die }),
    {
        Operation { command: Command::empty(), opcode: Opcode::Die }
    }

    /// The operation of a command that stands for an opcode by itself.
    pub fn from(command: Command) -> (op: Operation)
        requires
            command.wf(),
            command.color != Stone::Purple,
        ensures
            op.command == command,
            Some(op.opcode) == command.spec_opcode(),
            op.wf(),
    {
        match command.get_opcode() {
            Some(opcode) => Operation { opcode, command },
            None => Operation { opcode: Opcode::Die, command },
        }
    }

    /// Whether the operation can run.
    pub fn is_valid(&self) -> (b: bool)
        ensures
            b == self.wf(),
    {
        let opcode_set = match (self.command.color, self.opcode) {
            (Stone::Purple, Opcode::Die) => false,
            _ => true,
        };
        self.command.is_valid() && opcode_set
    }
}

/// Every operation of the program can run.
pub open spec fn valid_program(program: Seq<Operation>) -> bool {
    forall|i: int| 0 <= i < program.len() ==> (#[trigger] program[i]).wf()
}

/// Whether every operation of the program can run.
pub fn is_valid_program(program: &Vec<Operation>) -> (b: bool)
    ensures
        b == valid_program(program@),
{
    let mut i: usize = 0;
    while i < program.len()
        invariant
            i <= program.len(),
            forall|j: int| 0 <= j < i ==> (#[trigger] program[j]).wf(),
        decreases program.len() - i,
    {
        if !program[i].is_valid() {
            return false;
        }
        i += 1;
    }
    true
}

/// Something the machine has written: text that the program printed, or,
/// where tracing is on, the operation about to run, the field or the stack.
#[derive(Debug)]
pub enum Event {
    Text(Vec<char>),
    Operation { ip: usize, command: Command, opcode: Opcode },
    Field(Field<12, 6>),
    Stack(Vec<Value>),
}

impl View for Event {
    type V = Shown;

    open spec fn view(&self) -> Shown {
        match self {
            Event::Text(t) => Shown::Text(t@),
            Event::Operation { ip, command, opcode } => Shown::Operation {
                ip: *ip,
                command: *command,
                opcode: *opcode,
            },
            Event::Field(f) => Shown::Field(f@),
            Event::Stack(s) => Shown::Stack(contents(s@)),
        }
    }
}

/// The contents of the events of `s`, one by one.
pub open spec fn shown(s: Seq<Event>) -> Seq<Shown> {
    Seq::new(s.len(), |i: int| s[i]@)
}

/// A copy of `values`.
fn clone_values(values: &Vec<Value>) -> (copy: Vec<Value>)
    ensures
        contents(copy@) == contents(values@),
{
    let mut copy: Vec<Value> = Vec::new();
    let mut i: usize = 0;
    while i < values.len()
        invariant
            i <= values.len(),
            copy.len() == i,
            forall|j: int| 0 <= j < i ==> (#[trigger] copy[j])@ == values[j]@,
        decreases values.len() - i,
    {
        copy.push(values[i].clone());
        i += 1;
    }
    proof {
        assert(contents(copy@) =~= contents(values@));
    }
    copy
}

/// The machine: the program, the operand stack, the array that is being
/// filled, and the field on which every instruction first has to move its
/// stone.
#[derive(Debug)]
pub struct Vm {
    stack: Vec<Value>,
    program: Vec<Operation>,
    ip: usize,
    array_in_progress: Option<Vec<Value>>,
    field: Field<12, 6>,
    pending: Vec<Command>,
    cursor: usize,
    compiled: Opcode,
    input: Option<Vec<char>>,
    output: Vec<Event>,
}

impl View for Vm {
    type V = Machine;

    closed spec fn view(&self) -> Machine {
        Machine {
            program: self.program@,
            ip: self.ip,
            stack: contents(self.stack@),
            buffer: match self.array_in_progress {
                Some(items) => Some(contents(items@)),
                None => None,
            },
            grid: self.field@,
            pending: self.pending@.skip(self.cursor as int),
            compiled: self.compiled,
            input: match self.input {
                Some(line) => Some(line@),
                None => None,
            },
            output: shown(self.output@),
        }
    }
}

impl Vm {
    /// The state is one that `new` and the steps after it can lead to: a
    /// state that is well formed as `Machine::wf` says.
    pub closed spec fn wf(&self) -> bool {
        &&& self@.wf()
        &&& self.cursor <= self.pending.len()
    }

    /// A machine at the start of `program`, on the starting field.
    pub fn new(program: Vec<Operation>) -> (vm: Vm)
        requires
            valid_program(program@),
        ensures
            vm.wf(),
            vm@.wf(),
            vm@ == Machine::start(program@),
    {
        let vm = Vm {
            stack: Vec::new(),
            program,
            ip: 0,
            array_in_progress: None,
            field: Field::new(),
            pending: Vec::new(),
            cursor: 0,
            compiled: Opcode::Die,
            input: None,
            output: Vec::new(),
        };
        proof {
            Field::<12, 6>::lemma_initial();
            let g = Field::<12, 6>::initial();
            assert forall|s: Stone| s != Stone::__ implies #[trigger] present(g, s) by {
                match s {
                    Stone::Blue => assert(holds(g, s, 0, 0)),
                    Stone::Orange => assert(holds(g, s, 0, 6)),
                    Stone::Red => assert(holds(g, s, 2, 2)),
                    Stone::Green => assert(holds(g, s, 2, 8)),
                    Stone::Yellow => assert(holds(g, s, 4, 4)),
                    _ => assert(holds(g, s, 4, 10)),
                }
            }
            assert(vm@.stack =~= Seq::empty());
            assert(vm@.pending =~= Seq::empty());
            assert(vm@.output =~= Seq::empty());
        }
        vm
    }

    /// Puts `value` on top of the stack.
    pub fn push(&mut self, value: Value)
        requires
            old(self).wf(),
        ensures
            final(self).wf(),
            final(self)@ == (Machine { stack: old(self)@.stack.push(value@), ..old(self)@ }),
    {
        self.stack.push(value);
        proof {
            assert(contents(self.stack@) =~= contents(old(self).stack@).push(value@));
        }
    }

    /// Takes the top of the stack.
    pub fn pop(&mut self) -> (r: Result<Value, Error>)
        requires
            old(self).wf(),
        ensures
            final(self).wf(),
            match r {
                Ok(value) => old(self)@.stack.len() > 0 && value@ == old(self)@.stack.last()
                    && final(self)@ == (Machine {
                    stack: old(self)@.stack.drop_last(),
                    ..old(self)@
                }),
                Err(e) => old(self)@.stack.len() == 0 && e == Error::StackUnderflow && final(self)@
                    == old(self)@,
            },
    {
        match self.stack.pop() {
            Some(value) => {
                proof {
                    assert(contents(self.stack@) =~= contents(old(self).stack@).drop_last());
                }
                Ok(value)
            },
            None => Err(Error::StackUnderflow),
        }
    }

    /// The value `depth` places below the top of the stack.
    pub fn peek(&self, depth: usize) -> (r: Result<&Value, Error>)
        ensures
            match r {
                Ok(value) => depth < self@.stack.len() && value@ == self@.stack[self@.stack.len()
                    - 1 - depth],
                Err(e) => depth >= self@.stack.len() && e == Error::StackUnderflow,
            },
    {
        let n = self.stack.len();
        if depth < n {
            Ok(&self.stack[n - 1 - depth])
        } else {
            Err(Error::StackUnderflow)
        }
    }

    /// The field as it stands.
    pub fn field(&self) -> (f: &Field<12, 6>)
        ensures
            f@ == self@.grid,
    {
        &self.field
    }

    /// The operand stack, the top last.
    pub fn stack(&self) -> (s: &Vec<Value>)
        ensures
            contents(s@) == self@.stack,
    {
        &self.stack
    }

    /// The index of the next operation to fetch.
    pub fn ip(&self) -> (ip: usize)
        ensures
            ip == self@.ip,
    {
        self.ip
    }

    /// Whether nothing is left to do.
    pub fn is_halted(&self) -> (b: bool)
        requires
            self.wf(),
        ensures
            b == self@.halted(),
    {
        self.cursor == self.pending.len() && self.ip >= self.program.len()
    }

    /// Hands over a line of input for the next `Input` to read. A line
    /// that was handed over before and has not been read is replaced.
    pub fn provide_input(&mut self, line: &str)
        requires
            old(self).wf(),
        ensures
            final(self).wf(),
            final(self)@ == (Machine { input: Some(line@), ..old(self)@ }),
    {
        self.input = Some(chars_of(line));
    }

    /// Takes away what has been written so far.
    pub fn take_output(&mut self) -> (events: Vec<Event>)
        requires
            old(self).wf(),
        ensures
            final(self).wf(),
            shown(events@) == old(self)@.output,
            final(self)@ == (Machine { output: Seq::empty(), ..old(self)@ }),
    {
        let mut events: Vec<Event> = Vec::new();
        std::mem::swap(&mut events, &mut self.output);
        proof {
            assert(shown(self.output@) =~= Seq::empty());
        }
        events
    }

    fn write(&mut self, event: Event)
        requires
            old(self).wf(),
        ensures
            final(self).wf(),
            final(self)@ == (Machine { output: old(self)@.output.push(event@), ..old(self)@ }),
    {
        self.output.push(event);
        proof {
            assert(shown(self.output@) =~= shown(old(self).output@).push(event@));
        }
    }

    /// The value that the line of input `line` stands for.
    fn read_line(line: &Vec<char>) -> (r: Option<Value>)
        ensures
            match r {
                Some(value) => read_value(line@) == Some(value@),
                None => read_value(line@) is None,
            },
    {
        let (from, to) = trim(line);
        match parse_integer(line, from, to) {
            Some(n) => Some(Value::Num(n)),
            None => {
                if same_text(line, from, to, "true") {
                    Some(Value::Bool(true))
                } else if same_text(line, from, to, "false") {
                    Some(Value::Bool(false))
                } else {
                    None
                }
            },
        }
    }

    /// Runs one opcode against the stack, the array in progress and the
    /// instruction pointer.
    pub fn execute(&mut self, opcode: Opcode) -> (r: Result<(), Error>)
        requires
            old(self).wf(),
            opcode != Opcode::Die,
        ensures
            final(self).wf(),
            match old(self)@.effect(opcode) {
                Ok(m) => r is Ok && final(self)@ == m,
                Err(e) => r == Err::<(), Error>(e) && final(self)@ == old(self)@,
            },
    {
        let n = self.stack.len();
        let ghost before = self@;
        let ghost stack = self.stack@;
        proof {
            reveal(Machine::effect);
            assert(before.stack.len() == n);
            assert(forall|i: int| 0 <= i < n ==> before.stack[i] == (#[trigger] stack[i])@);
        }
        match opcode {
            Opcode::PushNumber(num) => {
                self.push(Value::Num(num));
                Ok(())
            },
            Opcode::PushBool(b) => {
                self.push(Value::Bool(b));
                Ok(())
            },
            Opcode::StartArray => {
                self.array_in_progress = Some(Vec::new());
                proof {
                    assert(self@.buffer->0 =~= Seq::empty());
                }
                Ok(())
            },
            Opcode::PushArray => {
                match self.array_in_progress.take() {
                    Some(items) => {
                        self.push(Value::Arr(items));
                        Ok(())
                    },
                    None => Err(Error::NoArrayInProgress),
                }
            },
            Opcode::EndArray => {
                match self.array_in_progress.take() {
                    Some(mut items) => {
                        match self.stack.pop() {
                            Some(value) => {
                                items.push(value);
                                proof {
                                    assert(contents(items@) =~= before.buffer->0.push(
                                        before.stack.last(),
                                    ));
                                    assert(contents(self.stack@) =~= before.stack.drop_last());
                                }
                                self.array_in_progress = Some(items);
                                Ok(())
                            },
                            None => {
                                self.array_in_progress = Some(items);
                                Err(Error::StackUnderflow)
                            },
                        }
                    },
                    None => Err(Error::NoArrayInProgress),
                }
            },
            Opcode::NthArray => {
                if n == 0 {
                    return Err(Error::StackUnderflow);
                }
                let idx = match &self.stack[n - 1] {
                    Value::Num(i) => *i,
                    other => {
                        return Err(Error::TypeMismatch { wanted: "number", got: other.kind_name() });
                    },
                };
                if n == 1 {
                    return Err(Error::StackUnderflow);
                }
                let item = match &self.stack[n - 2] {
                    Value::Arr(items) => {
                        if 0 <= idx && (idx as u64) < (items.len() as u64) {
                            items[idx as usize].clone()
                        } else {
                            return Err(Error::IndexOutOfRange { index: idx, len: items.len() });
                        }
                    },
                    other => {
                        return Err(Error::TypeMismatch { wanted: "array", got: other.kind_name() });
                    },
                };
                self.stack.pop();
                self.stack.push(item);
                proof {
                    assert(contents(self.stack@) =~= before.stack.drop_last().push(item@));
                }
                Ok(())
            },
            Opcode::Comparison(comparison) => {
                if n < 2 {
                    return Err(Error::StackUnderflow);
                }
                let lhs = &self.stack[n - 1];
                let rhs = &self.stack[n - 2];
                let equal = lhs.same_content(rhs);
                let order = lhs.compare(rhs);
                let result = match comparison {
                    Comparison::Equal => equal,
                    Comparison::LessThan => !matches!(order, Some(Order::Less)) && !equal,
                    Comparison::GreaterThan => !matches!(order, Some(Order::Greater)) && !equal,
                };
                self.stack.pop();
                self.stack.pop();
                self.stack.push(Value::Bool(result));
                proof {
                    assert(contents(self.stack@) =~= before.stack.take(n - 2).push(
                        Content::Bool(result),
                    ));
                }
                Ok(())
            },
            Opcode::Quine => Err(Error::Quine),
            Opcode::Math(math) => {
                if n == 0 {
                    return Err(Error::StackUnderflow);
                }
                let lhs = match &self.stack[n - 1] {
                    Value::Num(v) => *v,
                    other => {
                        return Err(Error::TypeMismatch { wanted: "number", got: other.kind_name() });
                    },
                };
                if n == 1 {
                    return Err(Error::StackUnderflow);
                }
                let rhs = match &self.stack[n - 2] {
                    Value::Num(v) => *v,
                    other => {
                        return Err(Error::TypeMismatch { wanted: "number", got: other.kind_name() });
                    },
                };
                let result = match math {
                    Math::Multiply => lhs.checked_mul(rhs),
                    Math::Add => lhs.checked_add(rhs),
                    Math::Subtract => lhs.checked_sub(rhs),
                    Math::Divide => lhs.checked_div(rhs),
                };
                match result {
                    Some(v) => {
                        self.stack.pop();
                        self.stack.pop();
                        self.stack.push(Value::Num(v));
                        proof {
                            assert(contents(self.stack@) =~= before.stack.take(n - 2).push(
                                Content::Num(v as int),
                            ));
                        }
                        Ok(())
                    },
                    None => {
                        if matches!(math, Math::Divide) && rhs == 0 {
                            Err(Error::DivisionByZero)
                        } else {
                            Err(Error::Overflow)
                        }
                    },
                }
            },
            Opcode::Roll => {
                if n == 0 {
                    return Err(Error::StackUnderflow);
                }
                let d = match &self.stack[n - 1] {
                    Value::Num(v) => *v,
                    other => {
                        return Err(Error::TypeMismatch { wanted: "number", got: other.kind_name() });
                    },
                };
                if d <= 0 {
                    self.stack.pop();
                    proof {
                        assert(contents(self.stack@) =~= before.stack.drop_last());
                    }
                    return Ok(());
                }
                if ((n - 1) as i128) < (d as i128) + 1 {
                    return Err(Error::StackUnderflow);
                }
                self.stack.pop();
                let k = n - 1;
                match self.stack.pop() {
                    Some(top) => {
                        self.stack.insert(k - 1 - d as usize, top);
                        proof {
                            assert(contents(self.stack@) =~= rolled(before.stack.drop_last(), d as int));
                        }
                    },
                    None => {},
                }
                Ok(())
            },
            Opcode::Dup => {
                if n == 0 {
                    return Err(Error::StackUnderflow);
                }
                let dup = self.stack[n - 1].clone();
                self.push(dup);
                Ok(())
            },
            Opcode::Drop => {
                if n == 0 {
                    return Err(Error::StackUnderflow);
                }
                self.stack.pop();
                proof {
                    assert(contents(self.stack@) =~= before.stack.drop_last());
                }
                Ok(())
            },
            Opcode::Not => {
                if n == 0 {
                    return Err(Error::StackUnderflow);
                }
                let truthy = self.stack[n - 1].is_truthy();
                self.stack.pop();
                self.stack.push(Value::Bool(!truthy));
                proof {
                    assert(contents(self.stack@) =~= before.stack.drop_last().push(
                        Content::Bool(!truthy),
                    ));
                }
                Ok(())
            },
            Opcode::Print => {
                match self.stack.pop() {
                    Some(value) => {
                        proof {
                            assert(contents(self.stack@) =~= before.stack.drop_last());
                        }
                        let mut text: Vec<char> = Vec::new();
                        value.print_as_num(&mut text);
                        proof {
                            assert(text@ =~= value@.num_text());
                        }
                        self.write(Event::Text(text));
                        Ok(())
                    },
                    None => Err(Error::StackUnderflow),
                }
            },
            Opcode::Input => {
                match self.input.take() {
                    Some(line) => {
                        match Self::read_line(&line) {
                            Some(value) => {
                                self.push(value);
                                Ok(())
                            },
                            None => {
                                self.input = Some(line);
                                Err(Error::ParseError)
                            },
                        }
                    },
                    None => Err(Error::InputNeeded),
                }
            },
            Opcode::Printc => {
                match self.stack.pop() {
                    Some(value) => {
                        proof {
                            assert(contents(self.stack@) =~= before.stack.drop_last());
                        }
                        let mut text: Vec<char> = Vec::new();
                        value.print_as_char(&mut text);
                        proof {
                            assert(text@ =~= value@.char_text());
                        }
                        self.write(Event::Text(text));
                        Ok(())
                    },
                    None => Err(Error::StackUnderflow),
                }
            },
            Opcode::Swap => {
                if n < 2 {
                    return Err(Error::StackUnderflow);
                }
                let a = self.stack.pop();
                let b = self.stack.pop();
                match (a, b) {
                    (Some(a), Some(b)) => {
                        self.stack.push(a);
                        self.stack.push(b);
                        proof {
                            assert(contents(self.stack@) =~= before.stack.take(n - 2).push(
                                before.stack[n - 1],
                            ).push(before.stack[n - 2]));
                        }
                    },
                    _ => {},
                }
                Ok(())
            },
            Opcode::JumpFalse(target) => {
                match self.stack.pop() {
                    Some(value) => {
                        proof {
                            assert(contents(self.stack@) =~= before.stack.drop_last());
                        }
                        if !value.is_truthy() {
                            self.ip = target;
                        }
                        Ok(())
                    },
                    None => Err(Error::StackUnderflow),
                }
            },
            Opcode::JumpForward(target) => {
                self.ip = target;
                Ok(())
            },
            Opcode::JumpBackward(target) => {
                self.ip = target;
                Ok(())
            },
            Opcode::Die => Ok(()),
        }
    }

    /// One step of the machine: with a command pending, its opcode runs;
    /// with nothing pending, the next operation is fetched and its move is
    /// attempted on the field. The flags ask for the operation about to
    /// run, the field and the stack to be written as well.
    pub fn step(&mut self, print_op: bool, print_field: bool, print_stack: bool) -> (r: Result<
        (),
        Error,
    >)
        requires
            old(self).wf(),
        ensures
            final(self).wf(),
            final(self)@.wf(),
            final(self)@ == old(self)@.step(print_op, print_field, print_stack).0,
            match old(self)@.step(print_op, print_field, print_stack).1 {
                Some(e) => r == Err::<(), Error>(e),
                None => r is Ok,
            },
    {
        let ghost before = self@;
        if self.cursor < self.pending.len() {
            let command = self.pending[self.cursor];
            proof {
                assert(before.pending[0] == command);
                assert((Operation { command: before.pending[0], opcode: before.compiled }).wf());
            }
            let opcode = match command.get_opcode() {
                Some(opcode) => opcode,
                None => self.compiled,
            };
            let ghost event = Shown::Operation { ip: self.ip, command, opcode };
            let ghost announced = before.traced(print_op, event);
            proof {
                announced.lemma_input_needed(opcode);
            }
            if matches!(opcode, Opcode::Input) && self.input.is_none() {
                return Err(Error::InputNeeded);
            }
            if print_op {
                self.write(Event::Operation { ip: self.ip, command, opcode });
            }
            assert(self@ == announced);
            match self.execute(opcode) {
                Ok(()) => {
                    let ghost done = self@;
                    proof {
                        announced.lemma_effect_keeps(opcode);
                        assert(done.pending == before.pending);
                        assert(self.pending@.skip(self.cursor as int).len() > 0);
                    }
                    self.cursor = self.cursor + 1;
                    proof {
                        assert(self.pending@.skip(self.cursor as int) =~= done.pending.drop_first());
                    }
                    if print_field {
                        let snapshot = self.field;
                        self.write(Event::Field(snapshot));
                    }
                    if print_stack {
                        let snapshot = clone_values(&self.stack);
                        self.write(Event::Stack(snapshot));
                    }
                    Ok(())
                },
                Err(e) => {
                    self.cursor = self.pending.len();
                    proof {
                        assert(self.pending@.skip(self.cursor as int) =~= Seq::empty());
                    }
                    Err(e)
                },
            }
        } else if self.ip < self.program.len() {
            let operation = self.program[self.ip];
            self.ip = self.ip + 1;
            proof {
                assert(before.program[before.ip as int].wf());
                assert(present(before.grid, operation.command.color));
                crate::field::lemma_resolve(before.grid, operation.command);
            }
            let commands = self.field.commands_for(operation.command);
            self.pending = commands;
            self.cursor = 0;
            self.compiled = operation.opcode;
            proof {
                assert(self.pending@.skip(0) =~= self.pending@);
                lemma_step_keeps_wf(before, print_op, print_field, print_stack);
            }
            Ok(())
        } else {
            Ok(())
        }
    }

    /// Runs the machine for up to `fuel` steps. It stops before that where
    /// the program has come to its end or a step fails; after `Quine` and
    /// `InputNeeded` the caller does what is asked and runs it again.
    pub fn run(&mut self, print_op: bool, print_field: bool, print_stack: bool, fuel: u64) -> (r:
        Result<(), Error>)
        requires
            old(self).wf(),
        ensures
            final(self).wf(),
            final(self)@.wf(),
            final(self)@ == old(self)@.run(print_op, print_field, print_stack, fuel as nat).0,
            match old(self)@.run(print_op, print_field, print_stack, fuel as nat).1 {
                Some(e) => r == Err::<(), Error>(e),
                None => r is Ok,
            },
    {
        let mut left = fuel;
        while left > 0 && !self.is_halted()
            invariant
                self.wf(),
                left <= fuel,
                old(self)@.run(print_op, print_field, print_stack, fuel as nat) == self@.run(
                    print_op,
                    print_field,
                    print_stack,
                    left as nat,
                ),
            decreases left,
        {
            match self.step(print_op, print_field, print_stack) {
                Ok(()) => {},
                Err(e) => {
                    return Err(e);
                },
            }
            left = left - 1;
        }
        Ok(())
    }
}

} // verus!
