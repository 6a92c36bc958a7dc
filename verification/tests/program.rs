use stones::ast::{Ast, AstCommand, Else, Number};
use stones::command::{Command, Dir, EitherNumber, OrangeNumber, RedNumber, Stone};
use stones::parser::parse_tokens;
use stones::vm::{Math, Opcode, Operation};
use stones::{compile, parse, Error, Token};

fn plain(color: Stone, color_token: Token, dir: Dir, dir_token: Token) -> AstCommand {
    AstCommand { color, color_token, dir, dir_token, number: None }
}

fn purple(dir: Dir, dir_token: Token) -> AstCommand {
    plain(Stone::Purple, Token::Purple, dir, dir_token)
}

fn op(color: Stone, dir: Dir, number: Option<EitherNumber>, opcode: Opcode) -> Operation {
    Operation { command: Command { color, dir, number, side_effect: false }, opcode }
}

fn red_up_one() -> Operation {
    op(Stone::Red, Dir::Up, Some(EitherNumber::Red(RedNumber::One)), Opcode::PushNumber(0))
}

fn jump(dir: Dir, opcode: Opcode) -> Operation {
    op(Stone::Purple, dir, None, opcode)
}

fn program(source: &str) -> Vec<Operation> {
    compile(&parse(source).unwrap())
}

#[test]
fn parse_reads_single_instructions() {
    let ast = parse("red up three yellow left orange down two").unwrap();
    assert_eq!(ast.len(), 3);
    match &ast[0] {
        Ast::Normal { command } => {
            assert_eq!(
                *command,
                AstCommand {
                    color: Stone::Red,
                    color_token: Token::Red,
                    dir: Dir::Up,
                    dir_token: Token::Up,
                    number: Some(Number {
                        number: EitherNumber::Red(RedNumber::Three),
                        number_token: Token::Three,
                    }),
                }
            );
            assert!(!command.is_end() && !command.is_else());
        }
        other => panic!("unexpected {:?}", other),
    }
    match &ast[1] {
        Ast::Normal { command } => {
            assert_eq!(*command, plain(Stone::Yellow, Token::Yellow, Dir::Left, Token::Left))
        }
        other => panic!("unexpected {:?}", other),
    }
    assert_eq!(
        ast[2].command().number,
        Some(Number {
            number: EitherNumber::Orange(OrangeNumber::Two),
            number_token: Token::Two
        })
    );
    assert_eq!(
        Command::from(ast[2].command()),
        Command {
            color: Stone::Orange,
            dir: Dir::Down,
            number: Some(EitherNumber::Orange(OrangeNumber::Two)),
            side_effect: false
        }
    );
    assert!(parse("").unwrap().is_empty());
}

#[test]
fn parse_nests_blocks() {
    let ast = parse(
        "purple left purple up green up purple down purple left purple right purple right purple right",
    )
    .unwrap();
    assert_eq!(ast.len(), 1);
    let Ast::PurpleLeft { begin, body, end } = &ast[0] else { panic!("no while") };
    assert_eq!(*begin, purple(Dir::Left, Token::Left));
    assert_eq!(*end, purple(Dir::Right, Token::Right));
    assert!(end.is_end());
    assert_eq!(body.len(), 1);
    assert!(!ast[0].is_end() && !ast[0].is_else());
    let Ast::PurpleUp { begin, body, else_, end } = &body[0] else { panic!("no if") };
    assert_eq!(*begin, purple(Dir::Up, Token::Up));
    assert_eq!(*end, purple(Dir::Right, Token::Right));
    assert_eq!(body.len(), 1);
    let Some(Else { else_, body }) = else_ else { panic!("no else") };
    assert_eq!(*else_, purple(Dir::Down, Token::Down));
    assert!(else_.is_else());
    assert_eq!(body.len(), 1);
    assert!(matches!(&body[0], Ast::PurpleLeft { body, .. } if body.is_empty()));
}

#[test]
fn parse_refuses_what_closes_nothing() {
    let right = "purple Right without corresponding purple up or purple left at token ";
    let down = "purple Down without corresponding purple up or purple left at token ";
    let cases = [
        ("purple right", right, 0),
        ("red up one purple right", right, 3),
        ("purple down", down, 0),
        ("purple left purple down purple right", down, 2),
        ("purple up purple down purple down purple right", down, 4),
        ("purple up purple right purple right", right, 4),
        ("purple left purple left purple right purple right purple down", down, 8),
        ("green up green up green up green up green up purple right", right, 10),
    ];
    for (source, message, at) in cases {
        match parse(source) {
            Err(Error::SyntaxError { why }) => {
                assert_eq!(why, format!("{}{}", message, at), "{}", source)
            }
            other => panic!("{}: unexpected {:?}", source, other),
        }
    }
}

#[test]
fn parse_refuses_what_ends_early() {
    for source in [
        "red",
        "red up",
        "orange left",
        "blue",
        "purple left",
        "purple up red up one",
        "purple up purple down",
        "purple left purple up purple right",
    ] {
        assert!(matches!(parse(source), Err(Error::UnexpectedEof)), "{}", source);
    }
}

#[test]
fn parse_refuses_misplaced_tokens() {
    assert!(matches!(parse("up red"), Err(Error::ExpectedColor { got: Token::Up })));
    assert!(matches!(parse("one"), Err(Error::ExpectedColor { got: Token::One })));
    assert!(matches!(parse("red red"), Err(Error::ExpectedDir { got: Token::Red })));
    assert!(matches!(parse("blue two"), Err(Error::ExpectedDir { got: Token::Two })));
    assert!(matches!(parse("red up blue"), Err(Error::ExpectedNumber { got: Token::Blue })));
    assert!(matches!(parse("orange up up"), Err(Error::ExpectedNumber { got: Token::Up })));
    assert!(matches!(
        parse("orange up three"),
        Err(Error::ExpectedOrangeNumber { got: Token::Three })
    ));
    assert!(matches!(
        parse("blue up one"),
        Err(Error::ExpectedColor { got: Token::One })
    ));
    assert!(matches!(
        parse_tokens(&vec![Token::Eof]),
        Err(Error::ExpectedColor { got: Token::Eof })
    ));
}

#[test]
fn compile_single_instructions() {
    assert_eq!(program(""), vec![]);
    assert_eq!(
        program("red up one yellow down"),
        vec![red_up_one(), op(Stone::Yellow, Dir::Down, None, Opcode::Math(Math::Add))]
    );
}

#[test]
fn compile_while_jumps_back_to_its_opening() {
    assert_eq!(
        program("red up one purple left red up one red up one purple right red up one"),
        vec![
            red_up_one(),
            jump(Dir::Left, Opcode::JumpFalse(5)),
            red_up_one(),
            red_up_one(),
            jump(Dir::Right, Opcode::JumpBackward(1)),
            red_up_one(),
        ]
    );
    assert_eq!(
        program("purple left purple right"),
        vec![jump(Dir::Left, Opcode::JumpFalse(2)), jump(Dir::Right, Opcode::JumpBackward(0))]
    );
}

#[test]
fn compile_if_without_second_block() {
    assert_eq!(
        program("red up one purple up red up one purple right red up one"),
        vec![
            red_up_one(),
            jump(Dir::Up, Opcode::JumpFalse(3)),
            red_up_one(),
            jump(Dir::Right, Opcode::JumpForward(4)),
            red_up_one(),
        ]
    );
}

#[test]
fn compile_if_with_second_block() {
    assert_eq!(
        program("purple up red up one purple down red up one red up one purple right"),
        vec![
            jump(Dir::Up, Opcode::JumpFalse(3)),
            red_up_one(),
            jump(Dir::Down, Opcode::JumpForward(5)),
            red_up_one(),
            red_up_one(),
            jump(Dir::Right, Opcode::JumpForward(6)),
        ]
    );
}

#[test]
fn compile_nested_blocks() {
    assert_eq!(
        program(
            "purple left purple up purple left purple right purple down purple right purple right"
        ),
        vec![
            jump(Dir::Left, Opcode::JumpFalse(7)),
            jump(Dir::Up, Opcode::JumpFalse(5)),
            jump(Dir::Left, Opcode::JumpFalse(4)),
            jump(Dir::Right, Opcode::JumpBackward(2)),
            jump(Dir::Down, Opcode::JumpForward(5)),
            jump(Dir::Right, Opcode::JumpForward(6)),
            jump(Dir::Right, Opcode::JumpBackward(0)),
        ]
    );
}

#[test]
fn compile_a_tree_built_by_hand() {
    let ast = vec![Ast::PurpleUp {
        begin: purple(Dir::Up, Token::Up),
        body: vec![],
        else_: Some(Else {
            else_: purple(Dir::Down, Token::Down),
            body: vec![Ast::Normal {
                command: plain(Stone::Green, Token::Green, Dir::Down, Token::Down),
            }],
        }),
        end: purple(Dir::Right, Token::Right),
    }];
    assert_eq!(
        compile(&ast),
        vec![
            jump(Dir::Up, Opcode::JumpFalse(2)),
            jump(Dir::Down, Opcode::JumpForward(3)),
            op(Stone::Green, Dir::Down, None, Opcode::Dup),
            jump(Dir::Right, Opcode::JumpForward(4)),
        ]
    );
}
