use stones::command::{Command, Dir, Stone};
use stones::field::Field;
use stones::vm::{Comparison, Event, Math, Opcode, Operation, Vm};
use stones::{compile, parse, Error, Value};

fn machine(source: &str) -> Vm {
    let ast = parse(source).unwrap();
    let program = compile(&ast);
    assert!(stones::vm::is_valid_program(&program));
    Vm::new(program)
}

fn text(events: Vec<Event>) -> String {
    let mut out = String::new();
    for event in events {
        if let Event::Text(chars) = event {
            out.extend(chars);
        }
    }
    out
}

fn output(source: &str) -> String {
    let mut vm = machine(source);
    vm.run(false, false, false, 10_000).unwrap();
    assert!(vm.is_halted());
    text(vm.take_output())
}

fn stack_after(values: Vec<Value>, opcode: Opcode) -> Result<Vec<Value>, Error> {
    let mut vm = Vm::new(vec![]);
    for v in values {
        vm.push(v);
    }
    vm.execute(opcode)?;
    Ok(vm.stack().clone())
}

fn nums(values: &[i64]) -> Vec<Value> {
    values.iter().map(|n| Value::Num(*n)).collect()
}

fn where_is(field: &Field<12, 6>, color: Stone) -> (usize, usize) {
    field.find(color)
}

#[test]
fn prints_zero() {
    assert_eq!(output("red up one blue up"), "0");
}

#[test]
fn adds_four_and_one() {
    assert_eq!(output("red up two red down one yellow down blue up"), "5");
}

#[test]
fn subtract_takes_the_top_as_left_operand() {
    assert_eq!(stack_after(nums(&[5, 2]), Opcode::Math(Math::Subtract)).unwrap(), nums(&[-3]));
    let mut vm = machine("red down two red left one yellow left");
    vm.run(false, false, false, 100).unwrap();
    assert_eq!(vm.stack(), &nums(&[-3]));
}

#[test]
fn math_on_numbers() {
    assert_eq!(stack_after(nums(&[9, 5, 2]), Opcode::Math(Math::Add)).unwrap(), nums(&[9, 7]));
    assert_eq!(stack_after(nums(&[5, 2]), Opcode::Math(Math::Multiply)).unwrap(), nums(&[10]));
    assert_eq!(stack_after(nums(&[2, 7]), Opcode::Math(Math::Divide)).unwrap(), nums(&[3]));
    assert_eq!(stack_after(nums(&[2, -7]), Opcode::Math(Math::Divide)).unwrap(), nums(&[-3]));
    assert_eq!(stack_after(nums(&[-2, 7]), Opcode::Math(Math::Divide)).unwrap(), nums(&[-3]));
    assert_eq!(stack_after(nums(&[7, 2]), Opcode::Math(Math::Divide)).unwrap(), nums(&[0]));
}

#[test]
fn math_failures() {
    assert!(matches!(stack_after(vec![], Opcode::Math(Math::Add)), Err(Error::StackUnderflow)));
    assert!(matches!(
        stack_after(nums(&[1]), Opcode::Math(Math::Add)),
        Err(Error::StackUnderflow)
    ));
    assert!(matches!(
        stack_after(vec![Value::Bool(true)], Opcode::Math(Math::Add)),
        Err(Error::TypeMismatch { wanted: "number", got: "bool" })
    ));
    assert!(matches!(
        stack_after(vec![Value::Arr(vec![]), Value::Num(1)], Opcode::Math(Math::Add)),
        Err(Error::TypeMismatch { wanted: "number", got: "array" })
    ));
    assert!(matches!(
        stack_after(nums(&[0, 5]), Opcode::Math(Math::Divide)),
        Err(Error::DivisionByZero)
    ));
    assert!(matches!(
        stack_after(nums(&[1, i64::MAX]), Opcode::Math(Math::Add)),
        Err(Error::Overflow)
    ));
    assert!(matches!(
        stack_after(nums(&[-1, i64::MIN]), Opcode::Math(Math::Divide)),
        Err(Error::Overflow)
    ));
    assert!(matches!(
        stack_after(nums(&[i64::MAX, 2]), Opcode::Math(Math::Multiply)),
        Err(Error::Overflow)
    ));
}

#[test]
fn a_failure_leaves_the_stack_alone() {
    let mut vm = Vm::new(vec![]);
    vm.push(Value::Bool(true));
    vm.push(Value::Num(1));
    assert!(vm.execute(Opcode::Math(Math::Add)).is_err());
    assert_eq!(vm.stack(), &vec![Value::Bool(true), Value::Num(1)]);
}

#[test]
fn comparison_truth_table() {
    let table = [
        (3, 5, Comparison::Equal, false),
        (3, 5, Comparison::LessThan, true),
        (3, 5, Comparison::GreaterThan, false),
        (5, 3, Comparison::Equal, false),
        (5, 3, Comparison::LessThan, false),
        (5, 3, Comparison::GreaterThan, true),
        (3, 3, Comparison::Equal, true),
        (3, 3, Comparison::LessThan, false),
        (3, 3, Comparison::GreaterThan, false),
    ];
    for (first, second, comparison, expected) in table {
        assert_eq!(
            stack_after(nums(&[first, second]), Opcode::Comparison(comparison)).unwrap(),
            vec![Value::Bool(expected)],
            "{} {} {:?}",
            first,
            second,
            comparison
        );
    }
}

#[test]
fn comparison_of_different_kinds() {
    let mixed = || vec![Value::Num(1), Value::Bool(true)];
    assert_eq!(
        stack_after(mixed(), Opcode::Comparison(Comparison::Equal)).unwrap(),
        vec![Value::Bool(false)]
    );
    assert_eq!(
        stack_after(mixed(), Opcode::Comparison(Comparison::LessThan)).unwrap(),
        vec![Value::Bool(true)]
    );
    assert_eq!(
        stack_after(mixed(), Opcode::Comparison(Comparison::GreaterThan)).unwrap(),
        vec![Value::Bool(true)]
    );
    assert!(matches!(
        stack_after(nums(&[1]), Opcode::Comparison(Comparison::Equal)),
        Err(Error::StackUnderflow)
    ));
}

#[test]
fn swap_twice_restores_the_stack() {
    let mut vm = Vm::new(vec![]);
    vm.push(Value::Num(1));
    vm.push(Value::Num(2));
    vm.execute(Opcode::Swap).unwrap();
    assert_eq!(vm.stack(), &nums(&[2, 1]));
    vm.execute(Opcode::Swap).unwrap();
    assert_eq!(vm.stack(), &nums(&[1, 2]));

    let mut vm = machine("blue right blue right");
    vm.push(Value::Num(1));
    vm.push(Value::Num(2));
    vm.run(false, false, false, 100).unwrap();
    assert!(vm.is_halted());
    assert_eq!(vm.stack(), &nums(&[1, 2]));
    assert!(matches!(stack_after(nums(&[1]), Opcode::Swap), Err(Error::StackUnderflow)));
}

#[test]
fn while_loop_moves_its_guard_stone_on_every_turn() {
    let mut vm = machine("red up one purple left red up one purple right");
    assert_eq!(where_is(vm.field(), Stone::Purple), (4, 10));
    let mut visits = 0;
    let mut steps = 0;
    while visits < 4 {
        let before = vm.ip();
        vm.step(false, false, false).unwrap();
        steps += 1;
        assert!(steps < 1000);
        if before == 1 && vm.ip() == 2 {
            visits += 1;
            assert_eq!(where_is(vm.field(), Stone::Purple), (4, 9));
        }
        if before == 3 && vm.ip() == 4 {
            assert_eq!(where_is(vm.field(), Stone::Purple), (4, 10));
        }
    }
    assert!(!vm.is_halted());
}

#[test]
fn while_loop_ends_when_the_guard_is_false() {
    let mut vm = machine("red right three purple left red up one purple right red up two");
    vm.run(false, false, false, 100).unwrap();
    assert!(vm.is_halted());
    assert_eq!(vm.stack(), &nums(&[4]));
}

#[test]
fn if_takes_the_first_block_on_a_truthy_guard() {
    assert_eq!(
        output("red left three purple up red up one purple down red down one purple right blue up"),
        "0"
    );
}

#[test]
fn if_takes_the_second_block_on_a_false_guard() {
    assert_eq!(
        output(
            "red right three purple up red up one purple down red down one purple right blue up"
        ),
        "1"
    );
}

#[test]
fn if_without_second_block_skips_on_false() {
    let mut vm = machine("red right three purple up red up one purple right");
    vm.run(false, false, false, 100).unwrap();
    assert!(vm.is_halted());
    assert_eq!(vm.stack(), &nums(&[]));
    assert_eq!(where_is(vm.field(), Stone::Purple), (3, 11));
}

#[test]
fn stack_opcodes() {
    assert_eq!(stack_after(nums(&[1]), Opcode::PushNumber(7)).unwrap(), nums(&[1, 7]));
    assert_eq!(
        stack_after(vec![], Opcode::PushBool(true)).unwrap(),
        vec![Value::Bool(true)]
    );
    assert_eq!(stack_after(nums(&[1, 2]), Opcode::Dup).unwrap(), nums(&[1, 2, 2]));
    assert_eq!(stack_after(nums(&[1, 2]), Opcode::Drop).unwrap(), nums(&[1]));
    assert_eq!(stack_after(nums(&[1]), Opcode::Not).unwrap(), vec![Value::Bool(false)]);
    assert_eq!(
        stack_after(vec![Value::Bool(false)], Opcode::Not).unwrap(),
        vec![Value::Bool(true)]
    );
    assert_eq!(
        stack_after(vec![Value::Arr(vec![])], Opcode::Not).unwrap(),
        vec![Value::Bool(false)]
    );
    for opcode in [Opcode::Dup, Opcode::Drop, Opcode::Not, Opcode::Print, Opcode::Printc] {
        assert!(matches!(stack_after(vec![], opcode), Err(Error::StackUnderflow)));
    }
}

#[test]
fn roll_moves_the_top_beneath() {
    assert_eq!(stack_after(nums(&[1, 2, 3, 4, 2]), Opcode::Roll).unwrap(), nums(&[1, 4, 2, 3]));
    assert_eq!(stack_after(nums(&[1, 2, 1]), Opcode::Roll).unwrap(), nums(&[2, 1]));
    assert_eq!(stack_after(nums(&[1, 2, 0]), Opcode::Roll).unwrap(), nums(&[1, 2]));
    assert_eq!(stack_after(nums(&[1, 2, -5]), Opcode::Roll).unwrap(), nums(&[1, 2]));
    assert!(matches!(stack_after(nums(&[1, 2, 2]), Opcode::Roll), Err(Error::StackUnderflow)));
    assert!(matches!(
        stack_after(nums(&[1, 2, i64::MAX]), Opcode::Roll),
        Err(Error::StackUnderflow)
    ));
    assert!(matches!(stack_after(vec![], Opcode::Roll), Err(Error::StackUnderflow)));
    assert!(matches!(
        stack_after(vec![Value::Bool(true)], Opcode::Roll),
        Err(Error::TypeMismatch { wanted: "number", got: "bool" })
    ));
}

#[test]
fn arrays_are_built_in_the_buffer() {
    let mut vm = Vm::new(vec![]);
    assert!(matches!(vm.execute(Opcode::PushArray), Err(Error::NoArrayInProgress)));
    assert!(matches!(vm.execute(Opcode::EndArray), Err(Error::NoArrayInProgress)));
    vm.execute(Opcode::StartArray).unwrap();
    assert!(matches!(vm.execute(Opcode::EndArray), Err(Error::StackUnderflow)));
    vm.push(Value::Num(7));
    vm.execute(Opcode::EndArray).unwrap();
    vm.push(Value::Bool(true));
    vm.execute(Opcode::EndArray).unwrap();
    assert_eq!(vm.stack(), &nums(&[]));
    vm.execute(Opcode::PushArray).unwrap();
    assert_eq!(vm.stack(), &vec![Value::Arr(vec![Value::Num(7), Value::Bool(true)])]);
    assert!(matches!(vm.execute(Opcode::PushArray), Err(Error::NoArrayInProgress)));
}

#[test]
fn a_second_array_replaces_the_open_one() {
    let mut vm = Vm::new(vec![]);
    vm.execute(Opcode::StartArray).unwrap();
    vm.push(Value::Num(1));
    vm.execute(Opcode::EndArray).unwrap();
    vm.execute(Opcode::StartArray).unwrap();
    vm.execute(Opcode::PushArray).unwrap();
    assert_eq!(vm.stack(), &vec![Value::Arr(vec![])]);
}

#[test]
fn nth_array_copies_an_item() {
    let array = || Value::Arr(nums(&[10, 20, 30]));
    assert_eq!(
        stack_after(vec![array(), Value::Num(1)], Opcode::NthArray).unwrap(),
        vec![array(), Value::Num(20)]
    );
    assert!(matches!(
        stack_after(vec![array(), Value::Num(3)], Opcode::NthArray),
        Err(Error::IndexOutOfRange { index: 3, len: 3 })
    ));
    assert!(matches!(
        stack_after(vec![array(), Value::Num(-1)], Opcode::NthArray),
        Err(Error::IndexOutOfRange { index: -1, len: 3 })
    ));
    assert!(matches!(
        stack_after(vec![Value::Num(1), Value::Num(0)], Opcode::NthArray),
        Err(Error::TypeMismatch { wanted: "array", got: "number" })
    ));
    assert!(matches!(
        stack_after(vec![array(), Value::Bool(true)], Opcode::NthArray),
        Err(Error::TypeMismatch { wanted: "number", got: "bool" })
    ));
    assert!(matches!(stack_after(nums(&[0]), Opcode::NthArray), Err(Error::StackUnderflow)));
    assert!(matches!(stack_after(vec![], Opcode::NthArray), Err(Error::StackUnderflow)));
}

#[test]
fn jumps_set_the_instruction_pointer() {
    let mut vm = Vm::new(vec![]);
    vm.execute(Opcode::JumpForward(7)).unwrap();
    assert_eq!(vm.ip(), 7);
    vm.execute(Opcode::JumpBackward(3)).unwrap();
    assert_eq!(vm.ip(), 3);
    vm.push(Value::Bool(true));
    vm.execute(Opcode::JumpFalse(9)).unwrap();
    assert_eq!(vm.ip(), 3);
    vm.push(Value::Num(0));
    vm.execute(Opcode::JumpFalse(9)).unwrap();
    assert_eq!(vm.ip(), 3);
    vm.push(Value::Bool(false));
    vm.execute(Opcode::JumpFalse(9)).unwrap();
    assert_eq!(vm.ip(), 9);
    assert_eq!(vm.stack(), &nums(&[]));
    assert!(matches!(vm.execute(Opcode::JumpFalse(1)), Err(Error::StackUnderflow)));
}

#[test]
fn print_and_printc_write_text() {
    let mut vm = Vm::new(vec![]);
    vm.push(Value::Arr(vec![Value::Num(72), Value::Arr(nums(&[105])), Value::Bool(true)]));
    vm.execute(Opcode::Dup).unwrap();
    vm.execute(Opcode::Printc).unwrap();
    vm.execute(Opcode::Print).unwrap();
    vm.push(Value::Num(-120));
    vm.execute(Opcode::Print).unwrap();
    vm.push(Value::Bool(false));
    vm.execute(Opcode::Print).unwrap();
    vm.push(Value::Num(65 + 256));
    vm.execute(Opcode::Printc).unwrap();
    vm.push(Value::Num(-191));
    vm.execute(Opcode::Printc).unwrap();
    assert_eq!(
        text(vm.take_output()),
        "Hitrue[Num(72), Arr([Num(105)]), Bool(true)]-120falseAA"
    );
    assert_eq!(text(vm.take_output()), "");
}

#[test]
fn quine_signals_and_resumes() {
    let mut vm = machine("red up one orange right two red up two");
    assert!(matches!(vm.run(false, false, false, 100), Err(Error::Quine)));
    assert_eq!(vm.stack(), &nums(&[0]));
    assert!(!vm.is_halted());
    vm.run(false, false, false, 100).unwrap();
    assert!(vm.is_halted());
    assert_eq!(vm.stack(), &nums(&[0, 4]));
}

#[test]
fn input_waits_for_a_line() {
    let mut vm = machine("blue down blue down blue down");
    assert!(matches!(vm.run(false, false, false, 100), Err(Error::InputNeeded)));
    assert!(matches!(vm.run(false, false, false, 100), Err(Error::InputNeeded)));
    vm.provide_input("  -42\n");
    assert!(matches!(vm.run(false, false, false, 100), Err(Error::InputNeeded)));
    assert_eq!(vm.stack(), &nums(&[-42]));
    vm.provide_input("true\n");
    assert!(matches!(vm.run(false, false, false, 100), Err(Error::InputNeeded)));
    vm.provide_input("nonsense\n");
    assert!(matches!(vm.run(false, false, false, 100), Err(Error::ParseError)));
    assert_eq!(vm.stack(), &vec![Value::Num(-42), Value::Bool(true)]);
}

#[test]
fn input_reads_numbers_and_booleans() {
    let cases = [
        ("0", Some(Value::Num(0))),
        ("+17", Some(Value::Num(17))),
        ("007", Some(Value::Num(7))),
        ("9223372036854775807", Some(Value::Num(i64::MAX))),
        ("-9223372036854775808", Some(Value::Num(i64::MIN))),
        ("9223372036854775808", None),
        ("-9223372036854775809", None),
        ("99999999999999999999999999", None),
        ("false", Some(Value::Bool(false))),
        ("\t true \r\n", Some(Value::Bool(true))),
        ("True", None),
        ("", None),
        ("-", None),
        ("1 2", None),
        ("12a", None),
    ];
    for (line, expected) in cases {
        let mut vm = Vm::new(vec![]);
        vm.provide_input(line);
        let result = vm.execute(Opcode::Input);
        match expected {
            Some(value) => {
                result.unwrap();
                assert_eq!(vm.stack(), &vec![value], "{:?}", line);
            }
            None => assert!(matches!(result, Err(Error::ParseError)), "{:?}", line),
        }
    }
    let mut vm = Vm::new(vec![]);
    assert!(matches!(vm.execute(Opcode::Input), Err(Error::InputNeeded)));
}

#[test]
fn a_blocked_instruction_runs_nothing() {
    // Red goes right along its row towards green on (2, 8).
    let mut vm = machine("red right three red right three red right one red up one");
    vm.run(false, false, false, 100).unwrap();
    assert!(vm.is_halted());
    // The second move stops after two steps and runs `red right two`;
    // the third is blocked at once and runs nothing.
    assert_eq!(vm.stack(), &vec![Value::Bool(false), Value::Num(7), Value::Num(0)]);
    assert_eq!(where_is(vm.field(), Stone::Red), (1, 7));
    assert_eq!(where_is(vm.field(), Stone::Green), (2, 8));
}

#[test]
fn a_push_runs_the_pushed_command_first() {
    // Red goes left around the edge until it lies right of green.
    let mut vm = machine("red left three red left two green right");
    vm.run(false, false, false, 100).unwrap();
    assert!(vm.is_halted());
    // Green pushes red: `red right one` pushes 3, then green's `Not`
    // turns that 3 into false.
    assert_eq!(vm.stack(), &vec![Value::Bool(true), Value::Num(6), Value::Bool(false)]);
    assert_eq!(where_is(vm.field(), Stone::Red), (2, 10));
    assert_eq!(where_is(vm.field(), Stone::Green), (2, 9));
}

#[test]
fn tracing_writes_operation_field_and_stack() {
    let mut vm = machine("red up one");
    vm.run(true, true, true, 100).unwrap();
    let events = vm.take_output();
    assert_eq!(events.len(), 3);
    match &events[0] {
        Event::Operation { ip, command, opcode } => {
            assert_eq!(*ip, 1);
            assert_eq!(command.color, Stone::Red);
            assert_eq!(command.dir, Dir::Up);
            assert_eq!(*opcode, Opcode::PushNumber(0));
        }
        other => panic!("unexpected {:?}", other),
    }
    match &events[1] {
        Event::Field(field) => assert_eq!(where_is(field, Stone::Red), (1, 2)),
        other => panic!("unexpected {:?}", other),
    }
    match &events[2] {
        Event::Stack(stack) => assert_eq!(stack, &nums(&[0])),
        other => panic!("unexpected {:?}", other),
    }
}

#[test]
fn run_stops_when_the_fuel_is_spent() {
    let mut vm = machine("red up one red up one");
    vm.run(false, false, false, 0).unwrap();
    assert_eq!(vm.ip(), 0);
    vm.run(false, false, false, 1).unwrap();
    assert_eq!(vm.ip(), 1);
    assert_eq!(vm.stack(), &nums(&[]));
    vm.run(false, false, false, 1).unwrap();
    assert_eq!(vm.stack(), &nums(&[0]));
    assert!(!vm.is_halted());
    vm.run(false, false, false, 2).unwrap();
    assert!(vm.is_halted());
    vm.run(false, false, false, 5).unwrap();
    assert_eq!(vm.stack(), &nums(&[0, 0]));
}

#[test]
fn pop_and_peek() {
    let mut vm = Vm::new(vec![]);
    assert!(matches!(vm.pop(), Err(Error::StackUnderflow)));
    assert!(matches!(vm.peek(0), Err(Error::StackUnderflow)));
    vm.push(Value::Num(1));
    vm.push(Value::Num(2));
    assert_eq!(vm.peek(0).unwrap(), &Value::Num(2));
    assert_eq!(vm.peek(1).unwrap(), &Value::Num(1));
    assert!(matches!(vm.peek(2), Err(Error::StackUnderflow)));
    assert_eq!(vm.pop().unwrap(), Value::Num(2));
    assert_eq!(vm.stack(), &nums(&[1]));
}

#[test]
fn programs_are_checked() {
    let purple = Command { color: Stone::Purple, dir: Dir::Up, number: None, side_effect: false };
    assert!(!Operation { command: purple, opcode: Opcode::Die }.is_valid());
    assert!(Operation { command: purple, opcode: Opcode::JumpFalse(0) }.is_valid());
    let odd = Command {
        color: Stone::Yellow,
        dir: Dir::Up,
        number: Stone::Red.number_one(),
        side_effect: false,
    };
    assert!(!Operation { command: odd, opcode: Opcode::Dup }.is_valid());
    assert!(!stones::vm::is_valid_program(&vec![Operation::die()]));
    assert!(stones::vm::is_valid_program(&vec![]));
}

#[test]
fn starting_field() {
    let field = Field::new();
    assert_eq!(field.width(), 12);
    assert_eq!(field.height(), 6);
    assert_eq!(where_is(&field, Stone::Blue), (0, 0));
    assert_eq!(where_is(&field, Stone::Orange), (0, 6));
    assert_eq!(where_is(&field, Stone::Red), (2, 2));
    assert_eq!(where_is(&field, Stone::Green), (2, 8));
    assert_eq!(where_is(&field, Stone::Yellow), (4, 4));
    assert_eq!(where_is(&field, Stone::Purple), (4, 10));
    assert_eq!(field.get(1, 1), Stone::__);
    assert_eq!(Field::<12, 6>::next_row(0, Dir::Up), 5);
    assert_eq!(Field::<12, 6>::next_row(5, Dir::Down), 0);
    assert_eq!(Field::<12, 6>::next_row(3, Dir::Left), 3);
    assert_eq!(Field::<12, 6>::next_col(0, Dir::Left), 11);
    assert_eq!(Field::<12, 6>::next_col(11, Dir::Right), 0);
    assert_eq!(Field::<12, 6>::next_col(4, Dir::Up), 4);
}
