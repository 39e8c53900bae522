use lox::chunk::{Chunk, OpCode};
use lox::compiler::{compile, try_compile, CompileErrKind, Operator, Precedence, Unexpected};
use lox::tokenizer::{Position, TokenKind};
use lox::value::Value;

fn ops(chunks: &[Chunk]) -> Vec<u8> {
    chunks.iter().map(|c| c.op).collect()
}

fn b(op: OpCode) -> u8 {
    op.to_byte()
}

#[test]
fn arithmetic_statement() {
    let (chunks, values) = compile("1 + 2 * 3;").unwrap();
    assert_eq!(
        ops(&chunks),
        vec![
            b(OpCode::Constant), 0,
            b(OpCode::Constant), 1,
            b(OpCode::Constant), 2,
            b(OpCode::Multiply),
            b(OpCode::Add),
            b(OpCode::Pop),
            b(OpCode::Return),
        ]
    );
    let vals = values.into_vec();
    assert_eq!(vals.len(), 3);
    match &vals[2] {
        Value::Number(t) => assert_eq!(t, "3"),
        _ => panic!("expected a number"),
    }
}

#[test]
fn left_associative_and_grouping() {
    let (chunks, _) = compile("(1 - 2) - (3 - 4);").unwrap();
    assert_eq!(
        ops(&chunks),
        vec![
            b(OpCode::Constant), 0, b(OpCode::Constant), 1, b(OpCode::Subtract),
            b(OpCode::Constant), 2, b(OpCode::Constant), 3, b(OpCode::Subtract),
            b(OpCode::Subtract), b(OpCode::Pop), b(OpCode::Return),
        ]
    );
}

#[test]
fn negated_comparisons() {
    let (chunks, _) = compile("1 >= 2 != !true;").unwrap();
    assert_eq!(
        ops(&chunks),
        vec![
            b(OpCode::Constant), 0, b(OpCode::Constant), 1, b(OpCode::Less), b(OpCode::Not),
            b(OpCode::Constant), 2, b(OpCode::Not), b(OpCode::Equal), b(OpCode::Not),
            b(OpCode::Pop), b(OpCode::Return),
        ]
    );
}

#[test]
fn print_statement_and_lines() {
    let (chunks, values) = compile("print \"hi\";\n-nil;").unwrap();
    assert_eq!(
        ops(&chunks),
        vec![
            b(OpCode::Constant), 0, b(OpCode::Print),
            b(OpCode::Constant), 1, b(OpCode::Negate), b(OpCode::Pop), b(OpCode::Return),
        ]
    );
    assert_eq!(chunks[0].line, 0);
    assert_eq!(chunks[6].line, 1);
    let vals = values.into_vec();
    match &vals[0] {
        Value::Object(o) => assert_eq!(o.to_string(), "hi"),
        _ => panic!("expected a string"),
    }
    assert!(matches!(vals[1], Value::Nil));
}

#[test]
fn missing_semicolon() {
    let errs = compile("1 + 2").unwrap_err();
    assert_eq!(errs.len(), 1);
    assert!(matches!(errs[0].kind, CompileErrKind::MissingSemicolon));
    // Errors are placed at the token before the last one taken: the `+`.
    assert_eq!(errs[0].location, Position { line: 0, col: 3, byte: 2 });
}

#[test]
fn unexpected_token() {
    let errs = compile("1 + ;").unwrap_err();
    assert_eq!(errs.len(), 1);
    match &errs[0].kind {
        CompileErrKind::UnexpectedToken(u) => {
            assert_eq!(u.actual, TokenKind::Semicolon);
            assert_eq!(
                u.expected,
                vec![TokenKind::True, TokenKind::False, TokenKind::Number, TokenKind::String, TokenKind::Nil]
            );
            assert_eq!(
                u.describe(),
                "Unexpected token. Found Semicolon, but expected: True, False, Number, String, or Nil"
            );
        }
        _ => panic!("expected an unexpected token"),
    }
}

#[test]
fn unclosed_group() {
    let errs = compile("(1;").unwrap_err();
    match &errs[0].kind {
        CompileErrKind::UnexpectedToken(u) => {
            assert_eq!(u.expected, vec![TokenKind::RightParen]);
            assert_eq!(u.actual, TokenKind::Semicolon);
            assert_eq!(u.describe(), "Unexpected token. Found Semicolon, but expected: RightParen");
        }
        _ => panic!("expected an unexpected token"),
    }
}

#[test]
fn first_tokenizer_error_is_left_out() {
    let errs = compile("@ 1 # $").unwrap_err();
    assert_eq!(errs.len(), 2);
    assert!(matches!(errs[0].kind, CompileErrKind::Parse(_)));
    assert_eq!(errs[0].location, Position { line: 0, col: 5, byte: 4 });
    let errs = compile("@ 1;").unwrap_err();
    assert_eq!(errs.len(), 0);
}

#[test]
fn unfinished_parts_are_refused() {
    assert!(try_compile("class A {}").is_none());
    assert!(try_compile("fun f() {}").is_none());
    assert!(try_compile("if (true) 1;").is_none());
    assert!(try_compile("1;").is_some());
}

#[test]
fn too_many_constants() {
    let mut source = String::new();
    for _ in 0..256 {
        source.push_str("1;");
    }
    let errs = compile(&source).unwrap_err();
    assert_eq!(errs.len(), 1);
    assert!(matches!(errs[0].kind, CompileErrKind::TooManyValues));
}

#[test]
fn recovery_after_error() {
    let errs = compile("1 1; print 2; print ;").unwrap_err();
    assert_eq!(errs.len(), 2);
    assert!(matches!(errs[0].kind, CompileErrKind::MissingSemicolon));
    assert!(matches!(errs[1].kind, CompileErrKind::UnexpectedToken(_)));
}

#[test]
fn empty_source() {
    let (chunks, values) = compile("").unwrap();
    assert_eq!(ops(&chunks), vec![b(OpCode::Return)]);
    assert_eq!(values.len(), 0);
}

#[test]
fn operator_tables() {
    assert_eq!(Operator::Add.to_bytecodes(), vec![OpCode::Add]);
    assert_eq!(Operator::SignFlip.to_bytecodes(), vec![OpCode::Negate]);
    assert_eq!(Operator::Greater.as_str(), " >");
    assert!(!Operator::Or.is_compiled());
    assert_eq!(Precedence::try_from(3), Ok(Precedence::And));
    assert_eq!(Precedence::try_from(11), Err(11));
    assert!(Precedence::Term < Precedence::Factor);
    let u = Unexpected { expected: vec![TokenKind::Nil, TokenKind::True], actual: TokenKind::EOF, location: Position::default() };
    assert_eq!(u.describe(), "Unexpected token. Found EOF, but expected: Nil, or True");
}

#[test]
fn and_or_compile_to_short_cuts() {
    let (chunks, _) = compile("true and false;").unwrap();
    assert_eq!(
        ops(&chunks),
        vec![
            b(OpCode::Constant),
            0,
            b(OpCode::JumpIfFalse),
            0,
            6,
            b(OpCode::Pop),
            b(OpCode::Constant),
            1,
            b(OpCode::JumpIfFalse),
            0,
            0,
            b(OpCode::Pop),
            b(OpCode::Return),
        ]
    );
    let (chunks, _) = compile("1 or 2;").unwrap();
    assert_eq!(
        ops(&chunks),
        vec![
            b(OpCode::Constant),
            0,
            b(OpCode::JumpIfFalse),
            0,
            3,
            b(OpCode::Jump),
            0,
            6,
            b(OpCode::Pop),
            b(OpCode::Constant),
            1,
            b(OpCode::JumpIfFalse),
            0,
            0,
            b(OpCode::Pop),
            b(OpCode::Return),
        ]
    );
    // The listing shows each jump as its one byte, as it shows every byte
    // other than a constant load.
    let listing: Vec<String> = Chunk::disassemble_code(&chunks).into_iter().map(|l| l.text).collect();
    assert_eq!(listing[1], "   | JumpIfFalse");
    assert_eq!(listing[3], "   | Jump");
}
