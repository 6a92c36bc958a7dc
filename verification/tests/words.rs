use stones::command::{Command, Dir, EitherNumber, OrangeNumber, RedNumber, Stone};
use stones::number::Number;
use stones::statement::Statement;
use stones::token::Token as Word;
use stones::vm::{Comparison, Math, Opcode, Operation};
use stones::{scan, Color, Direction, Error, Token};

fn command(color: Stone, dir: Dir, number: Option<EitherNumber>) -> Command {
    Command { color, dir, number, side_effect: false }
}

#[test]
fn color_from_str_names_each_colour() {
    assert_eq!(Color::from_str("red"), Color::Red);
    assert_eq!(Color::from_str("orange"), Color::Orange);
    assert_eq!(Color::from_str("yellow"), Color::Yellow);
    assert_eq!(Color::from_str("green"), Color::Green);
    assert_eq!(Color::from_str("blue"), Color::Blue);
    assert_eq!(Color::from_str("purple"), Color::Purple);
    assert_eq!(Color::from_str("pink"), Color::Invis);
    assert_eq!(Color::from_str("Red"), Color::Invis);
    assert_eq!(Color::from_str(""), Color::Invis);
}

#[test]
fn direction_from_str_names_each_direction() {
    assert_eq!(Direction::from_str("up"), Direction::Up);
    assert_eq!(Direction::from_str("down"), Direction::Down);
    assert_eq!(Direction::from_str("left"), Direction::Left);
    assert_eq!(Direction::from_str("right"), Direction::Right);
    assert_eq!(Direction::from_str("upp"), Direction::Unknown);
}

#[test]
fn number_from_str_reads_digits() {
    assert_eq!(Number::from_str("1"), Number::One);
    assert_eq!(Number::from_str("2"), Number::Two);
    assert_eq!(Number::from_str("3"), Number::Three);
    assert_eq!(Number::from_str("4"), Number::Unknown);
    assert_eq!(Number::from_str("one"), Number::Unknown);
}

#[test]
fn words_convert_both_ways() {
    assert_eq!(Word::from_stone(Color::Invis), Word::Nop);
    assert_eq!(Word::from_direction(Direction::Unknown), Word::Nop);
    assert_eq!(Word::from_number(Number::Two), Word::Two);
    assert_eq!(Word::from_number(Number::Unknown), Word::Nop);
    assert_eq!(Word::Purple.to_stone(), Color::Purple);
    assert_eq!(Word::Up.to_stone(), Color::Invis);
    assert_eq!(Word::Left.to_direction(), Direction::Left);
    assert_eq!(Word::Red.to_direction(), Direction::Unknown);
    assert_eq!(Word::Three.to_number(), Number::Three);
    assert_eq!(Word::Nop.to_number(), Number::Unknown);
    assert!(!Word::Nop.is_color() && !Word::Nop.is_direction() && !Word::Nop.is_number());
}

#[test]
fn statement_new_keeps_its_parts() {
    let s = Statement::new(Color::Green, Direction::Left, Number::Unknown);
    assert_eq!(s.color, Color::Green);
    assert_eq!(s.direction, Direction::Left);
    assert_eq!(s.number, Number::Unknown);
}

#[test]
fn token_try_from_reads_every_word() {
    let words = [
        ("red", Token::Red),
        ("orange", Token::Orange),
        ("yellow", Token::Yellow),
        ("green", Token::Green),
        ("blue", Token::Blue),
        ("purple", Token::Purple),
        ("up", Token::Up),
        ("down", Token::Down),
        ("left", Token::Left),
        ("right", Token::Right),
        ("one", Token::One),
        ("two", Token::Two),
        ("three", Token::Three),
    ];
    for (word, token) in words {
        assert_eq!(Token::try_from(word).unwrap(), token);
    }
    assert!(Token::Purple.is_color());
    assert!(!Token::Up.is_color());
    assert!(Token::Three.is_number());
    assert!(!Token::Eof.is_number());
}

#[test]
fn token_try_from_refuses_other_words() {
    match Token::try_from("four") {
        Err(Error::UnknownToken { token }) => assert_eq!(token, "four"),
        other => panic!("unexpected {:?}", other),
    }
}

#[test]
fn scan_skips_white_space_and_unknown_words() {
    assert_eq!(scan(""), vec![]);
    assert_eq!(scan("  \n\t "), vec![]);
    assert_eq!(
        scan("red up one\n\tblue   up"),
        vec![Token::Red, Token::Up, Token::One, Token::Blue, Token::Up]
    );
    assert_eq!(scan("red, up one ; purple"), vec![Token::Up, Token::One, Token::Purple]);
    assert_eq!(scan("three"), vec![Token::Three]);
    assert_eq!(scan("red\u{a0}up"), vec![Token::Red, Token::Up]);
}

#[test]
fn stone_conversions_from_tokens() {
    assert_eq!(Stone::try_from(Token::Green).unwrap(), Stone::Green);
    assert!(matches!(Stone::try_from(Token::Up), Err(Error::ExpectedColor { got: Token::Up })));
    assert_eq!(Dir::try_from(Token::Left).unwrap(), Dir::Left);
    assert!(matches!(Dir::try_from(Token::Red), Err(Error::ExpectedDir { got: Token::Red })));
    assert_eq!(RedNumber::try_from(Token::Three).unwrap(), RedNumber::Three);
    assert!(matches!(
        RedNumber::try_from(Token::Up),
        Err(Error::ExpectedRedNumber { got: Token::Up })
    ));
    assert_eq!(OrangeNumber::try_from(Token::Two).unwrap(), OrangeNumber::Two);
    assert!(matches!(
        OrangeNumber::try_from(Token::Three),
        Err(Error::ExpectedOrangeNumber { got: Token::Three })
    ));
}

#[test]
fn stone_numbers() {
    assert!(Stone::Red.has_number());
    assert!(Stone::Orange.has_number());
    assert!(!Stone::Yellow.has_number());
    assert!(!Stone::__.has_number());
    assert_eq!(Stone::Red.number_one(), Some(EitherNumber::Red(RedNumber::One)));
    assert_eq!(Stone::Orange.number_one(), Some(EitherNumber::Orange(OrangeNumber::One)));
    assert_eq!(Stone::Purple.number_one(), None);
    assert_eq!(Stone::Purple.rank(), 6);
    assert_eq!(Stone::__.rank(), 0);
}

#[test]
fn magnitudes() {
    assert_eq!(RedNumber::One.magnitude(), 1);
    assert_eq!(RedNumber::Two.magnitude(), 2);
    assert_eq!(RedNumber::Three.magnitude(), 3);
    assert_eq!(OrangeNumber::One.magnitude(), 1);
    assert_eq!(OrangeNumber::Two.magnitude(), 2);
    assert_eq!(EitherNumber::Red(RedNumber::Three).magnitude(), 3);
    assert_eq!(EitherNumber::Orange(OrangeNumber::Two).magnitude(), 2);
    assert_eq!(RedNumber::from_magnitude(2), RedNumber::Two);
    assert_eq!(OrangeNumber::from_magnitude(1), OrangeNumber::One);
    assert_eq!(command(Stone::Blue, Dir::Up, None).magnitude(), 1);
    assert_eq!(
        command(Stone::Red, Dir::Up, Some(EitherNumber::Red(RedNumber::Three))).magnitude(),
        3
    );
}

#[test]
fn change_magnitude_replaces_the_step_count() {
    let red = command(Stone::Red, Dir::Left, Some(EitherNumber::Red(RedNumber::Three)));
    assert_eq!(
        red.change_magnitude(2),
        command(Stone::Red, Dir::Left, Some(EitherNumber::Red(RedNumber::Two)))
    );
    let orange = command(Stone::Orange, Dir::Up, Some(EitherNumber::Orange(OrangeNumber::Two)));
    assert_eq!(
        orange.change_magnitude(1),
        command(Stone::Orange, Dir::Up, Some(EitherNumber::Orange(OrangeNumber::One)))
    );
    let green = command(Stone::Green, Dir::Up, None);
    assert_eq!(green.change_magnitude(1), green);
}

#[test]
fn empty_command_names_no_stone() {
    assert_eq!(Command::empty(), command(Stone::__, Dir::Left, None));
    assert_eq!(Operation::die().opcode, Opcode::Die);
    assert_eq!(Operation::die().command, Command::empty());
    assert!(!Operation::die().is_valid());
}

#[test]
fn opcode_of_every_command() {
    let red = |n| Some(EitherNumber::Red(n));
    let orange = |n| Some(EitherNumber::Orange(n));
    let table = [
        (Stone::Red, Dir::Up, red(RedNumber::One), Opcode::PushNumber(0)),
        (Stone::Red, Dir::Down, red(RedNumber::One), Opcode::PushNumber(1)),
        (Stone::Red, Dir::Left, red(RedNumber::One), Opcode::PushNumber(2)),
        (Stone::Red, Dir::Right, red(RedNumber::One), Opcode::PushNumber(3)),
        (Stone::Red, Dir::Up, red(RedNumber::Two), Opcode::PushNumber(4)),
        (Stone::Red, Dir::Down, red(RedNumber::Two), Opcode::PushNumber(5)),
        (Stone::Red, Dir::Left, red(RedNumber::Two), Opcode::PushNumber(6)),
        (Stone::Red, Dir::Right, red(RedNumber::Two), Opcode::PushNumber(7)),
        (Stone::Red, Dir::Up, red(RedNumber::Three), Opcode::PushNumber(8)),
        (Stone::Red, Dir::Down, red(RedNumber::Three), Opcode::PushNumber(9)),
        (Stone::Red, Dir::Left, red(RedNumber::Three), Opcode::PushBool(true)),
        (Stone::Red, Dir::Right, red(RedNumber::Three), Opcode::PushBool(false)),
        (Stone::Orange, Dir::Up, orange(OrangeNumber::One), Opcode::StartArray),
        (Stone::Orange, Dir::Down, orange(OrangeNumber::One), Opcode::PushArray),
        (Stone::Orange, Dir::Left, orange(OrangeNumber::One), Opcode::EndArray),
        (Stone::Orange, Dir::Right, orange(OrangeNumber::One), Opcode::NthArray),
        (
            Stone::Orange,
            Dir::Up,
            orange(OrangeNumber::Two),
            Opcode::Comparison(Comparison::Equal),
        ),
        (
            Stone::Orange,
            Dir::Down,
            orange(OrangeNumber::Two),
            Opcode::Comparison(Comparison::LessThan),
        ),
        (
            Stone::Orange,
            Dir::Left,
            orange(OrangeNumber::Two),
            Opcode::Comparison(Comparison::GreaterThan),
        ),
        (Stone::Orange, Dir::Right, orange(OrangeNumber::Two), Opcode::Quine),
        (Stone::Yellow, Dir::Up, None, Opcode::Math(Math::Multiply)),
        (Stone::Yellow, Dir::Down, None, Opcode::Math(Math::Add)),
        (Stone::Yellow, Dir::Left, None, Opcode::Math(Math::Subtract)),
        (Stone::Yellow, Dir::Right, None, Opcode::Math(Math::Divide)),
        (Stone::Green, Dir::Up, None, Opcode::Roll),
        (Stone::Green, Dir::Down, None, Opcode::Dup),
        (Stone::Green, Dir::Left, None, Opcode::Drop),
        (Stone::Green, Dir::Right, None, Opcode::Not),
        (Stone::Blue, Dir::Up, None, Opcode::Print),
        (Stone::Blue, Dir::Down, None, Opcode::Input),
        (Stone::Blue, Dir::Left, None, Opcode::Printc),
        (Stone::Blue, Dir::Right, None, Opcode::Swap),
    ];
    for (color, dir, number, opcode) in table {
        let c = command(color, dir, number);
        assert_eq!(c.get_opcode(), Some(opcode), "{:?}", c);
        assert_eq!(Operation::from(c), Operation { command: c, opcode });
        assert!(Operation::from(c).is_valid());
    }
    for dir in [Dir::Up, Dir::Down, Dir::Left, Dir::Right] {
        assert_eq!(command(Stone::Purple, dir, None).get_opcode(), None);
    }
}

#[test]
fn command_to_string_spells_the_command() {
    assert_eq!(
        command(Stone::Red, Dir::Up, Some(EitherNumber::Red(RedNumber::Three))).to_string(),
        "red up three"
    );
    assert_eq!(
        command(Stone::Orange, Dir::Left, Some(EitherNumber::Orange(OrangeNumber::Two)))
            .to_string(),
        "orange left two"
    );
    assert_eq!(command(Stone::Purple, Dir::Down, None).to_string(), "purple down");
    let pushed = Command { color: Stone::Green, dir: Dir::Right, number: None, side_effect: true };
    assert_eq!(pushed.to_string(), "green right (side effect)");
    assert_eq!(Command::empty().to_string(), "__ left");
}
