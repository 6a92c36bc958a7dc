use stones::command::{Command, Dir, EitherNumber, OrangeNumber, RedNumber, Stone};
use stones::field::Field;

fn red(n: RedNumber) -> Option<EitherNumber> {
    Some(EitherNumber::Red(n))
}

fn orange(n: OrangeNumber) -> Option<EitherNumber> {
    Some(EitherNumber::Orange(n))
}

fn cmd(color: Stone, dir: Dir, number: Option<EitherNumber>, side_effect: bool) -> Command {
    Command { color, dir, number, side_effect }
}

fn check<const W: usize, const H: usize>(
    request: (Stone, Dir, Option<EitherNumber>),
    before: [[Stone; W]; H],
    after: [[Stone; W]; H],
    expected: Vec<Command>,
) {
    let op = cmd(request.0, request.1, request.2, false);
    let mut field = Field::<W, H>::from_rows(before);
    let ops = field.commands_for(op);
    assert_eq!(after, field.rows(), "expected left, got right");
    assert_eq!(expected, ops, "expected left, got right");
}

#[test]
fn cmp() {
    assert!(Stone::__ < Stone::Red);
    assert!(Stone::Red < Stone::Orange);
    assert!(Stone::Orange < Stone::Yellow);
    assert!(Stone::Yellow < Stone::Green);
    assert!(Stone::Green < Stone::Blue);
    assert!(Stone::Blue < Stone::Purple);
}

#[test]
fn simple() {
    check(
        (Stone::Blue, Dir::Right, None),
            [[Stone::Blue, Stone::__]],
            [[Stone::__, Stone::Blue]],
            vec![cmd(Stone::Blue, Dir::Right, None, false)],
    );
}

#[test]
fn cancelled() {
    check(
        (Stone::Red, Dir::Right, red(RedNumber::One)),
            [[Stone::Red, Stone::Blue, Stone::__]],
            [[Stone::Red, Stone::Blue, Stone::__]],
            Vec::<Command>::new(),
    );
}

#[test]
fn double_cancelled() {
    check(
        (Stone::Orange, Dir::Right, orange(OrangeNumber::One)),
            [[Stone::Orange, Stone::__, Stone::Purple]],
            [[Stone::__, Stone::Orange, Stone::Purple]],
            vec![cmd(Stone::Orange, Dir::Right, orange(OrangeNumber::One), false)],
    );
}

#[test]
fn left_wrap() {
    check(
        (Stone::Green, Dir::Left, None),
            [[Stone::Green, Stone::__, Stone::__]],
            [[Stone::__, Stone::__, Stone::Green]],
            vec![cmd(Stone::Green, Dir::Left, None, false)],
    );
}

#[test]
fn right_wrap() {
    check(
        (Stone::Green, Dir::Right, None),
            [[Stone::__, Stone::__, Stone::Green]],
            [[Stone::Green, Stone::__, Stone::__]],
            vec![cmd(Stone::Green, Dir::Right, None, false)],
    );
}

#[test]
fn up_wrap() {
    check(
        (Stone::Green, Dir::Up, None),
            [
                [Stone::__, Stone::Green],
                [Stone::__, Stone::__],
                [Stone::__, Stone::__],
            ],
            [
                [Stone::__, Stone::__],
                [Stone::__, Stone::__],
                [Stone::__, Stone::Green]
            ],
            vec![cmd(Stone::Green, Dir::Up, None, false)],
    );
}

#[test]
fn down_wrap() {
    check(
        (Stone::Green, Dir::Down, None),
            [
                [Stone::__, Stone::__],
                [Stone::__, Stone::__],
                [Stone::__, Stone::Green],
            ],
            [
                [Stone::__, Stone::Green],
                [Stone::__, Stone::__],
                [Stone::__, Stone::__],
            ],
            vec![cmd(Stone::Green, Dir::Down, None, false)],
    );
}

#[test]
fn push_left() {
    check(
        (Stone::Green, Dir::Left, None),
            [[Stone::__, Stone::Yellow, Stone::Green]],
            [[Stone::Yellow, Stone::Green, Stone::__]],
            vec![cmd(Stone::Yellow, Dir::Left, None, true), cmd(Stone::Green, Dir::Left, None, false)],
    );
}

#[test]
fn push_right() {
    check(
        (Stone::Green, Dir::Right, None),
            [[Stone::Green, Stone::Yellow, Stone::__]],
            [[Stone::__, Stone::Green, Stone::Yellow]],
            vec![cmd(Stone::Yellow, Dir::Right, None, true), cmd(Stone::Green, Dir::Right, None, false)],
    );
}

#[test]
fn push_up() {
    check(
        (Stone::Green, Dir::Up, None),
            [
                [Stone::__, Stone::__],
                [Stone::Yellow, Stone::__],
                [Stone::Green, Stone::__],
            ],
            [
                [Stone::Yellow, Stone::__],
                [Stone::Green, Stone::__],
                [Stone::__, Stone::__]
            ],
            vec![cmd(Stone::Yellow, Dir::Up, None, true), cmd(Stone::Green, Dir::Up, None, false)],
    );
}

#[test]
fn push_down() {
    check(
        (Stone::Green, Dir::Down, None),
            [
                [Stone::Green, Stone::__],
                [Stone::Yellow, Stone::__],
                [Stone::__, Stone::__],
            ],
            [
                [Stone::__, Stone::__],
                [Stone::Green, Stone::__],
                [Stone::Yellow, Stone::__],
            ],
            vec![cmd(Stone::Yellow, Dir::Down, None, true), cmd(Stone::Green, Dir::Down, None, false)],
    );
}

#[test]
fn push_left_wrap() {
    check(
        (Stone::Green, Dir::Left, None),
            [[Stone::Yellow, Stone::Green, Stone::__]],
            [[Stone::Green, Stone::__, Stone::Yellow]],
            vec![cmd(Stone::Yellow, Dir::Left, None, true), cmd(Stone::Green, Dir::Left, None, false)],
    );
}

#[test]
fn push_right_wrap() {
    check(
        (Stone::Green, Dir::Right, None),
            [[Stone::__, Stone::Green, Stone::Yellow]],
            [[Stone::Yellow, Stone::__, Stone::Green]],
            vec![cmd(Stone::Yellow, Dir::Right, None, true), cmd(Stone::Green, Dir::Right, None, false)],
    );
}

#[test]
fn push_up_wrap() {
    check(
        (Stone::Green, Dir::Up, None),
            [
                [Stone::Yellow, Stone::__],
                [Stone::Green, Stone::__],
                [Stone::__, Stone::__],
            ],
            [
                [Stone::Green, Stone::__],
                [Stone::__, Stone::__],
                [Stone::Yellow, Stone::__],
            ],
            vec![cmd(Stone::Yellow, Dir::Up, None, true), cmd(Stone::Green, Dir::Up, None, false)],
    );
}

#[test]
fn push_down_wrap() {
    check(
        (Stone::Green, Dir::Down, None),
            [
                [Stone::__, Stone::__],
                [Stone::Green, Stone::__],
                [Stone::Yellow, Stone::__],
            ],
            [
                [Stone::Yellow, Stone::__],
                [Stone::__, Stone::__],
                [Stone::Green, Stone::__],
            ],
            vec![cmd(Stone::Yellow, Dir::Down, None, true), cmd(Stone::Green, Dir::Down, None, false)],
    );
}

#[test]
fn double_push_left() {
    check(
        (Stone::Orange, Dir::Right, orange(OrangeNumber::Two)),
            [[Stone::Orange, Stone::Red, Stone::__, Stone::__]],
            [[Stone::__, Stone::__, Stone::Orange, Stone::Red]],
            vec![cmd(Stone::Red, Dir::Right, red(RedNumber::One), true), cmd(Stone::Red, Dir::Right, red(RedNumber::One), true), cmd(Stone::Orange, Dir::Right, orange(OrangeNumber::Two), false)],
    );
}

#[test]
fn double_push_right() {
    check(
        (Stone::Orange, Dir::Right, orange(OrangeNumber::Two)),
            [[Stone::Orange, Stone::Red, Stone::__, Stone::__]],
            [[Stone::__, Stone::__, Stone::Orange, Stone::Red]],
            vec![cmd(Stone::Red, Dir::Right, red(RedNumber::One), true), cmd(Stone::Red, Dir::Right, red(RedNumber::One), true), cmd(Stone::Orange, Dir::Right, orange(OrangeNumber::Two), false)],
    );
}

#[test]
fn double_push_left_wrap() {
    check(
        (Stone::Orange, Dir::Right, orange(OrangeNumber::Two)),
            [[Stone::__, Stone::__, Stone::Orange, Stone::Red]],
            [[Stone::Orange, Stone::Red, Stone::__, Stone::__]],
            vec![cmd(Stone::Red, Dir::Right, red(RedNumber::One), true), cmd(Stone::Red, Dir::Right, red(RedNumber::One), true), cmd(Stone::Orange, Dir::Right, orange(OrangeNumber::Two), false)],
    );
}

#[test]
fn double_push_right_wrap() {
    check(
        (Stone::Orange, Dir::Right, orange(OrangeNumber::Two)),
            [[Stone::__, Stone::__, Stone::Orange, Stone::Red]],
            [[Stone::Orange, Stone::Red, Stone::__, Stone::__]],
            vec![cmd(Stone::Red, Dir::Right, red(RedNumber::One), true), cmd(Stone::Red, Dir::Right, red(RedNumber::One), true), cmd(Stone::Orange, Dir::Right, orange(OrangeNumber::Two), false)],
    );
}

#[test]
fn double_push_cancelled() {
    check(
        (Stone::Orange, Dir::Right, orange(OrangeNumber::Two)),
            [[Stone::Orange, Stone::Red, Stone::__, Stone::Blue]],
            [[Stone::__, Stone::Orange, Stone::Red, Stone::Blue]],
            vec![cmd(Stone::Red, Dir::Right, red(RedNumber::One), true), cmd(Stone::Orange, Dir::Right, orange(OrangeNumber::One), false)],
    );
}

#[test]
fn double_push_cancelled_wrap() {
    check(
        (Stone::Orange, Dir::Right, orange(OrangeNumber::Two)),
            [[Stone::__, Stone::Blue, Stone::Orange, Stone::Red]],
            [[Stone::Red, Stone::Blue, Stone::__, Stone::Orange]],
            vec![cmd(Stone::Red, Dir::Right, red(RedNumber::One), true), cmd(Stone::Orange, Dir::Right, orange(OrangeNumber::One), false)],
    );
}

#[test]
fn choo_choo() {
    check(
        (Stone::Purple, Dir::Left, None),
            [[
                Stone::__,
                Stone::Red,
                Stone::Orange,
                Stone::Yellow,
                Stone::Green,
                Stone::Blue,
                Stone::Purple,
            ]],
            [[
                Stone::Red,
                Stone::Orange,
                Stone::Yellow,
                Stone::Green,
                Stone::Blue,
                Stone::Purple,
                Stone::__,
            ]],
            vec![cmd(Stone::Red, Dir::Left, red(RedNumber::One), true), cmd(Stone::Orange, Dir::Left, orange(OrangeNumber::One), true), cmd(Stone::Yellow, Dir::Left, None, true), cmd(Stone::Green, Dir::Left, None, true), cmd(Stone::Blue, Dir::Left, None, true), cmd(Stone::Purple, Dir::Left, None, false)],
    );
}

#[test]
fn field_to_string_draws_a_frame() {
    let field = Field::<3, 2>::from_rows([
        [Stone::Blue, Stone::__, Stone::Orange],
        [Stone::Purple, Stone::Yellow, Stone::Red],
    ]);
    let line = format!("{:─<width$}", "─", width = 30);
    let mut expected = format!("┌{}┐\n", line);
    for row in field.rows() {
        expected.push('│');
        for cell in row {
            expected.push_str(&format!("{:10}", format!("{:?}", cell)));
        }
        expected.push_str("│\n");
    }
    expected.push_str(&format!("└{}┘\n", line));
    assert_eq!(field.to_string(), expected);
    assert!(expected.contains("│Purple    Yellow    Red       │"));
    assert_eq!(Field::<0, 1>::from_rows([[]]).to_string(), "┌─┐\n││\n└─┘\n");
    assert_eq!(Field::<2, 0>::from_rows([]).to_string().chars().count(), 2 * (2 + 20 + 1));
}

#[test]
fn find_and_get_agree() {
    let field = Field::<3, 2>::from_rows([
        [Stone::__, Stone::__, Stone::Orange],
        [Stone::Purple, Stone::__, Stone::__],
    ]);
    assert_eq!(field.find(Stone::Orange), (0, 2));
    assert_eq!(field.find(Stone::Purple), (1, 0));
    assert_eq!(field.get(0, 2), Stone::Orange);
    assert_eq!(field.get(1, 1), Stone::__);
    assert_eq!(field.width(), 3);
    assert_eq!(field.height(), 2);
    assert_eq!(Field::<3, 2>::next_row(0, Dir::Up), 1);
    assert_eq!(Field::<3, 2>::next_col(2, Dir::Right), 0);
}

#[test]
fn steps_are_cut_short_by_a_heavier_stone() {
    check(
        (Stone::Red, Dir::Right, red(RedNumber::Three)),
        [[Stone::__, Stone::Red, Stone::__, Stone::__, Stone::Blue]],
        [[Stone::__, Stone::__, Stone::__, Stone::Red, Stone::Blue]],
        vec![cmd(Stone::Red, Dir::Right, red(RedNumber::Two), false)],
    );
    check(
        (Stone::Red, Dir::Left, red(RedNumber::Three)),
        [[Stone::__, Stone::Red, Stone::__, Stone::__, Stone::Blue]],
        [[Stone::Red, Stone::__, Stone::__, Stone::__, Stone::Blue]],
        vec![cmd(Stone::Red, Dir::Left, red(RedNumber::One), false)],
    );
    check(
        (Stone::Red, Dir::Down, red(RedNumber::Three)),
        [[Stone::__], [Stone::Red], [Stone::__], [Stone::__]],
        [[Stone::Red], [Stone::__], [Stone::__], [Stone::__]],
        vec![cmd(Stone::Red, Dir::Down, red(RedNumber::Three), false)],
    );
}

#[test]
fn a_push_that_is_blocked_blocks_the_pusher() {
    check(
        (Stone::Green, Dir::Right, None),
        [[Stone::Green, Stone::Red, Stone::Blue, Stone::__]],
        [[Stone::Green, Stone::Red, Stone::Blue, Stone::__]],
        Vec::<Command>::new(),
    );
    check(
        (Stone::Orange, Dir::Right, orange(OrangeNumber::One)),
        [[Stone::Orange, Stone::Red]],
        [[Stone::Orange, Stone::Red]],
        Vec::<Command>::new(),
    );
}

#[test]
fn contains_and_is_valid() {
    let field = Field::<3, 2>::from_rows([
        [Stone::__, Stone::Red, Stone::Orange],
        [Stone::Purple, Stone::__, Stone::__],
    ]);
    assert!(field.contains(Stone::Red));
    assert!(field.contains(Stone::__));
    assert!(!field.contains(Stone::Blue));
    assert!(field.is_valid());
    let twice = Field::<3, 2>::from_rows([
        [Stone::__, Stone::Red, Stone::Orange],
        [Stone::Purple, Stone::__, Stone::Red],
    ]);
    assert!(!twice.is_valid());
    let side_by_side = Field::<2, 1>::from_rows([[Stone::Purple, Stone::Purple]]);
    assert!(!side_by_side.is_valid());
    assert!(Field::<2, 2>::from_rows([[Stone::__; 2]; 2]).is_valid());
    assert!(Field::new().is_valid());
}

#[test]
fn purple_stops_where_a_lighter_stone_cannot_make_way() {
    check(
        (Stone::Purple, Dir::Left, None),
        [[Stone::__, Stone::Blue, Stone::Red, Stone::Purple]],
        [[Stone::__, Stone::Blue, Stone::Red, Stone::Purple]],
        Vec::<Command>::new(),
    );
}
