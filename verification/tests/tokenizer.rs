use lox::tokenizer::{tokenize, ErrKind, LoxParseErr, LoxToken, Position, TokenKind, Tokenizer};

fn lex(source: &str) -> Vec<Result<LoxToken, LoxParseErr>> {
    let mut t = Tokenizer::new(source);
    let mut out = Vec::new();
    while let Some(r) = t.next() {
        out.push(r);
    }
    out
}

fn kinds(source: &str) -> Vec<TokenKind> {
    lex(source).into_iter().map(|r| r.unwrap().kind()).collect()
}

#[test]
fn punctuation_and_operators() {
    assert_eq!(
        kinds("(){},.-+;/* x */*! != = == > >= < <="),
        vec![
            TokenKind::LeftParen,
            TokenKind::RightParen,
            TokenKind::LeftBrace,
            TokenKind::RightBrace,
            TokenKind::Comma,
            TokenKind::Dot,
            TokenKind::Minus,
            TokenKind::Plus,
            TokenKind::Semicolon,
            TokenKind::Star,
            TokenKind::Bang,
            TokenKind::BangEqual,
            TokenKind::Equal,
            TokenKind::EqualEqual,
            TokenKind::Greater,
            TokenKind::GreaterEqual,
            TokenKind::Less,
            TokenKind::LessEqual,
        ]
    );
}

#[test]
fn keywords_and_identifiers() {
    assert_eq!(
        kinds("and class else false fun for if nil or print return super this true var while andy _x1"),
        vec![
            TokenKind::And,
            TokenKind::Class,
            TokenKind::Else,
            TokenKind::False,
            TokenKind::Fun,
            TokenKind::For,
            TokenKind::If,
            TokenKind::Nil,
            TokenKind::Or,
            TokenKind::Print,
            TokenKind::Return,
            TokenKind::Super,
            TokenKind::This,
            TokenKind::True,
            TokenKind::Var,
            TokenKind::While,
            TokenKind::Identifier,
            TokenKind::Identifier,
        ]
    );
}

#[test]
fn comments_are_skipped() {
    assert_eq!(kinds("// all of this\n1 /* and\n this */ 2 / 3"), vec![
        TokenKind::Number,
        TokenKind::Number,
        TokenKind::Slash,
        TokenKind::Number
    ]);
    assert_eq!(kinds("/* never closed"), vec![]);
    assert_eq!(kinds("// no newline"), vec![]);
}

#[test]
fn positions_track_lines_and_columns() {
    let toks = lex("print 12;\n  x");
    let print = toks[0].unwrap();
    assert_eq!(print.span.start, Position { line: 0, col: 1, byte: 0 });
    assert_eq!(print.span.end, Position { line: 0, col: 6, byte: 5 });
    let num = toks[1].unwrap();
    assert_eq!(num.range(), 6..8);
    assert_eq!(num.get_start().line(), 0);
    let x = toks[3].unwrap();
    assert_eq!(x.span.start, Position { line: 1, col: 3, byte: 12 });
    // The end of the text keeps the last line and column, with the byte length.
    assert_eq!(x.span.end, Position { line: 1, col: 3, byte: 13 });
}

#[test]
fn numbers_and_trailing_period() {
    let toks = lex("3.25 7. 8");
    let n = toks[0].unwrap();
    assert_eq!(n.kind(), TokenKind::Number);
    assert_eq!(n.range(), 0..4);
    let err = toks[1].unwrap_err();
    assert_eq!(err.kind, ErrKind::TrailingPeriod);
    assert_eq!(err.get_start(), Position { line: 0, col: 7, byte: 6 });
    assert_eq!(err.span.end, Position { line: 0, col: 8, byte: 7 });
    assert_eq!(toks[2].unwrap().kind(), TokenKind::Number);
    // `3.x` is a number, then an error: the period needs a digit after it.
    let toks = lex("3.x");
    assert_eq!(toks[0].unwrap_err().kind, ErrKind::TrailingPeriod);
    assert_eq!(toks[1].unwrap().kind(), TokenKind::Identifier);
}

#[test]
fn strings_and_escaped_quotes() {
    let toks = lex("\"a\\\"b\" \"open");
    let s = toks[0].unwrap();
    assert_eq!(s.kind(), TokenKind::String);
    assert_eq!(s.range(), 0..6);
    let err = toks[1].unwrap_err();
    assert_eq!(err.kind, ErrKind::UnexpectedEOF);
    assert_eq!(err.span.start, Position { line: 0, col: 8, byte: 7 });
    assert_eq!(err.span.end, Position { line: 0, col: 12, byte: 12 });
}

#[test]
fn invalid_characters() {
    let toks = lex("@ é");
    assert_eq!(toks.len(), 2);
    assert_eq!(toks[0].unwrap_err().kind, ErrKind::InvalidChar);
    let e = toks[1].unwrap_err();
    assert_eq!(e.kind, ErrKind::InvalidChar);
    assert_eq!(e.span.start, Position { line: 0, col: 3, byte: 2 });
    assert_eq!(e.span.end, Position { line: 0, col: 3, byte: 4 });
    assert_eq!(e.describe(), "[line: 0, column: 3] InvalidChar");
}

#[test]
fn end_of_text_repeats() {
    let mut t = Tokenizer::new("x");
    assert!(t.next().is_some());
    assert!(t.next().is_none());
    assert!(t.next().is_none());
}

#[test]
fn token_kind_numbers() {
    assert_eq!(TokenKind::max(), 35);
    assert_eq!(TokenKind::try_from(0), Ok(TokenKind::LeftParen));
    assert_eq!(TokenKind::try_from(35), Ok(TokenKind::While));
    assert_eq!(TokenKind::try_from(36), Err(36));
    assert_eq!(TokenKind::Equal.code(), 36);
    assert_eq!(TokenKind::EOF.code(), 38);
    for v in 0..=35u8 {
        assert_eq!(TokenKind::try_from(v).unwrap().code(), v);
    }
    assert_eq!(TokenKind::GreaterEqual.name(), "GreaterEqual");
}

#[test]
fn position_text() {
    assert_eq!(Position { line: 12, col: 0, byte: 99 }.describe(), "line: 12, column: 0");
    assert_eq!(Position::default(), Position { line: 0, col: 0, byte: 0 });
}

#[test]
fn results_come_in_source_order() {
    let results = lex("var é = 1.;\n\"ünï\" // note\n@ x_1 >= 2.5 \"open");
    assert_eq!(results.len(), 11);
    let spans: Vec<(usize, usize)> = results
        .iter()
        .map(|r| match r {
            Ok(tok) => (tok.span.start.byte, tok.span.end.byte),
            Err(e) => (e.span.start.byte, e.span.end.byte),
        })
        .collect();
    for (start, end) in &spans {
        assert!(start < end);
    }
    for w in spans.windows(2) {
        assert!(w[0].1 <= w[1].0);
    }
}

#[test]
fn only_blanks_and_comments_give_none_for_good() {
    let mut t = Tokenizer::new("  // note\n /* block */ \t\n");
    assert!(t.next().is_none());
    assert!(t.next().is_none());
    let mut t = Tokenizer::new("/* never closed");
    assert!(t.next().is_none());
    assert!(t.next().is_none());
    let mut t = Tokenizer::new(" x ");
    assert!(t.next().is_some());
    assert!(t.next().is_none());
    assert!(t.next().is_none());
}

#[test]
fn tokens_stand_at_their_lines() {
    let source = "a\n\n  b // c\n/* d\n e */ f";
    let results = lex(source);
    let mut lines = Vec::new();
    for r in &results {
        let tok = r.as_ref().unwrap();
        assert_ne!(tok.kind(), TokenKind::EOF);
        let range = tok.range();
        assert!(range.start < range.end && range.end <= source.len());
        let newlines = source[..range.start].matches('\n').count();
        assert_eq!(tok.get_start().line(), newlines);
        lines.push(tok.get_start().line());
    }
    assert_eq!(lines, vec![0, 2, 4]);
}

#[test]
fn tokenize_gives_what_next_gives() {
    let source = "print (1 + 2) // x\n \"s\" 3.";
    let all = tokenize(source);
    let stepped = lex(source);
    assert_eq!(all.len(), stepped.len());
    assert_eq!(all.len(), 8);
    for (a, b) in all.iter().zip(stepped.iter()) {
        match (a, b) {
            (Ok(x), Ok(y)) => assert_eq!(x.range(), y.range()),
            (Err(x), Err(y)) => assert_eq!(x.span.start, y.span.start),
            _ => panic!("results differ"),
        }
    }
}
