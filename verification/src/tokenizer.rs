use vstd::prelude::*;
use crate::source::{byte_length, char_indices, char_table};
use crate::text::{decimal, decimal_string};

verus! {

/// A place in the source text: a zero-based line, a column counted from the
/// start of that line, and the byte offset of the character there.
#[derive(Clone, Copy, Debug, PartialEq, Eq, Structural)]
pub struct Position {
    pub line: usize,
    pub col: usize,
    pub byte: usize,
}

impl Position {
    /// The start of the text: line 0, column 0, byte 0.
    pub fn start_of_text() -> (r: Position)
        ensures
            r == start_position(),
    {
        Position { line: 0, col: 0, byte: 0 }
    }

    pub fn line(&self) -> (r: usize)
        ensures
            r == self.line,
    {
        self.line
    }

    pub fn col(&self) -> (r: usize)
        ensures
            r == self.col,
    {
        self.col
    }
}

impl Default for Position {
    fn default() -> (r: Position)
        ensures
            r == start_position(),
    {
        Position::start_of_text()
    }
}

/// The first and the one-past-last position of a token or an error.
#[derive(Clone, Copy, Debug, PartialEq, Eq, Structural)]
pub struct Span {
    pub start: Position,
    pub end: Position,
}

/// The kinds of token of the Lox language.
#[derive(Clone, Copy, Debug, PartialEq, Eq, Structural)]
pub enum TokenKind {
    LeftParen,
    RightParen,
    LeftBrace,
    RightBrace,
    Comma,
    Dot,
    Minus,
    Plus,
    Semicolon,
    Slash,
    Star,
    Bang,
    BangEqual,
    Equal,
    EqualEqual,
    Greater,
    GreaterEqual,
    Less,
    LessEqual,
    Identifier,
    String,
    Number,
    And,
    Class,
    Else,
    False,
    Fun,
    For,
    If,
    Nil,
    Or,
    Print,
    Return,
    Super,
    This,
    True,
    Var,
    While,
    /// Never yielded by the tokenizer; it names the end of the input in error reports.
    EOF,
}

/// One token: what kind it is and where it stands in the source.
#[derive(Clone, Copy, Debug, PartialEq, Eq, Structural)]
pub struct LoxToken {
    pub kind: TokenKind,
    pub span: Span,
}

/// What went wrong at a place where no token could be read.
#[derive(Clone, Copy, Debug, PartialEq, Eq, Structural)]
pub enum ErrKind {
    InvalidChar,
    /// A number that ended in a period.
    TrailingPeriod,
    UnexpectedEOF,
}

/// A failure to read a token, with the span of text it concerns.
#[derive(Clone, Copy, Debug, PartialEq, Eq, Structural)]
pub struct LoxParseErr {
    pub kind: ErrKind,
    pub span: Span,
}

/// The number that stands for each kind of token.
pub open spec fn token_kind_code(k: TokenKind) -> u8 {
    match k {
        TokenKind::LeftParen => 0,
        TokenKind::RightParen => 1,
        TokenKind::LeftBrace => 2,
        TokenKind::RightBrace => 3,
        TokenKind::Comma => 4,
        TokenKind::Dot => 5,
        TokenKind::Minus => 6,
        TokenKind::Plus => 7,
        TokenKind::Semicolon => 8,
        TokenKind::Slash => 9,
        TokenKind::Star => 10,
        TokenKind::Bang => 11,
        TokenKind::BangEqual => 12,
        TokenKind::Equal => 36,
        TokenKind::EqualEqual => 37,
        TokenKind::Greater => 13,
        TokenKind::GreaterEqual => 14,
        TokenKind::Less => 15,
        TokenKind::LessEqual => 16,
        TokenKind::Identifier => 17,
        TokenKind::String => 18,
        TokenKind::Number => 19,
        TokenKind::And => 20,
        TokenKind::Class => 21,
        TokenKind::Else => 22,
        TokenKind::False => 23,
        TokenKind::Fun => 24,
        TokenKind::For => 25,
        TokenKind::If => 26,
        TokenKind::Nil => 27,
        TokenKind::Or => 28,
        TokenKind::Print => 29,
        TokenKind::Return => 30,
        TokenKind::Super => 31,
        TokenKind::This => 32,
        TokenKind::True => 33,
        TokenKind::Var => 34,
        TokenKind::While => 35,
        TokenKind::EOF => 38,
    }
}

/// The kind that a number stands for, where the conversion from a number
/// accepts it: the numbers of `Equal`, `EqualEqual` and `EOF` are not accepted.
pub open spec fn token_kind_of_code(v: u8) -> Option<TokenKind> {
    if v == 0 {
        Some(TokenKind::LeftParen)
    } else if v == 1 {
        Some(TokenKind::RightParen)
    } else if v == 2 {
        Some(TokenKind::LeftBrace)
    } else if v == 3 {
        Some(TokenKind::RightBrace)
    } else if v == 4 {
        Some(TokenKind::Comma)
    } else if v == 5 {
        Some(TokenKind::Dot)
    } else if v == 6 {
        Some(TokenKind::Minus)
    } else if v == 7 {
        Some(TokenKind::Plus)
    } else if v == 8 {
        Some(TokenKind::Semicolon)
    } else if v == 9 {
        Some(TokenKind::Slash)
    } else if v == 10 {
        Some(TokenKind::Star)
    } else if v == 11 {
        Some(TokenKind::Bang)
    } else if v == 12 {
        Some(TokenKind::BangEqual)
    } else if v == 13 {
        Some(TokenKind::Greater)
    } else if v == 14 {
        Some(TokenKind::GreaterEqual)
    } else if v == 15 {
        Some(TokenKind::Less)
    } else if v == 16 {
        Some(TokenKind::LessEqual)
    } else if v == 17 {
        Some(TokenKind::Identifier)
    } else if v == 18 {
        Some(TokenKind::String)
    } else if v == 19 {
        Some(TokenKind::Number)
    } else if v == 20 {
        Some(TokenKind::And)
    } else if v == 21 {
        Some(TokenKind::Class)
    } else if v == 22 {
        Some(TokenKind::Else)
    } else if v == 23 {
        Some(TokenKind::False)
    } else if v == 24 {
        Some(TokenKind::Fun)
    } else if v == 25 {
        Some(TokenKind::For)
    } else if v == 26 {
        Some(TokenKind::If)
    } else if v == 27 {
        Some(TokenKind::Nil)
    } else if v == 28 {
        Some(TokenKind::Or)
    } else if v == 29 {
        Some(TokenKind::Print)
    } else if v == 30 {
        Some(TokenKind::Return)
    } else if v == 31 {
        Some(TokenKind::Super)
    } else if v == 32 {
        Some(TokenKind::This)
    } else if v == 33 {
        Some(TokenKind::True)
    } else if v == 34 {
        Some(TokenKind::Var)
    } else if v == 35 {
        Some(TokenKind::While)
    } else {
        None
    }
}

/// Converting a kind to its number and back gives the kind again, for every
/// kind whose number the conversion accepts; and no two kinds share a number.
pub proof fn lemma_token_kind_code_round_trip(k: TokenKind, other: TokenKind)
    ensures
        token_kind_code(k) <= 35 ==> token_kind_of_code(token_kind_code(k)) == Some(k),
        token_kind_code(k) == token_kind_code(other) ==> k == other,
{
}

impl TokenKind {
    /// The largest number that converts back to a kind.
    pub fn max() -> (r: usize)
        ensures
            r == token_kind_code(TokenKind::While),
    {
        35
    }

    /// The number that stands for this kind.
    pub fn code(&self) -> (r: u8)
        ensures
            r == token_kind_code(*self),
    {
        match self {
            TokenKind::LeftParen => 0,
            TokenKind::RightParen => 1,
            TokenKind::LeftBrace => 2,
            TokenKind::RightBrace => 3,
            TokenKind::Comma => 4,
            TokenKind::Dot => 5,
            TokenKind::Minus => 6,
            TokenKind::Plus => 7,
            TokenKind::Semicolon => 8,
            TokenKind::Slash => 9,
            TokenKind::Star => 10,
            TokenKind::Bang => 11,
            TokenKind::BangEqual => 12,
            TokenKind::Equal => 36,
            TokenKind::EqualEqual => 37,
            TokenKind::Greater => 13,
            TokenKind::GreaterEqual => 14,
            TokenKind::Less => 15,
            TokenKind::LessEqual => 16,
            TokenKind::Identifier => 17,
            TokenKind::String => 18,
            TokenKind::Number => 19,
            TokenKind::And => 20,
            TokenKind::Class => 21,
            TokenKind::Else => 22,
            TokenKind::False => 23,
            TokenKind::Fun => 24,
            TokenKind::For => 25,
            TokenKind::If => 26,
            TokenKind::Nil => 27,
            TokenKind::Or => 28,
            TokenKind::Print => 29,
            TokenKind::Return => 30,
            TokenKind::Super => 31,
            TokenKind::This => 32,
            TokenKind::True => 33,
            TokenKind::Var => 34,
            TokenKind::While => 35,
            TokenKind::EOF => 38,
        }
    }

    /// The kind that `value` stands for; the value itself when it stands for none.
    pub fn try_from(value: u8) -> (r: Result<TokenKind, u8>)
        ensures
            r == (match token_kind_of_code(value) {
                Some(k) => Ok(k),
                None => Err(value),
            }),
    {
        match value {
            0 => Ok(TokenKind::LeftParen),
            1 => Ok(TokenKind::RightParen),
            2 => Ok(TokenKind::LeftBrace),
            3 => Ok(TokenKind::RightBrace),
            4 => Ok(TokenKind::Comma),
            5 => Ok(TokenKind::Dot),
            6 => Ok(TokenKind::Minus),
            7 => Ok(TokenKind::Plus),
            8 => Ok(TokenKind::Semicolon),
            9 => Ok(TokenKind::Slash),
            10 => Ok(TokenKind::Star),
            11 => Ok(TokenKind::Bang),
            12 => Ok(TokenKind::BangEqual),
            13 => Ok(TokenKind::Greater),
            14 => Ok(TokenKind::GreaterEqual),
            15 => Ok(TokenKind::Less),
            16 => Ok(TokenKind::LessEqual),
            17 => Ok(TokenKind::Identifier),
            18 => Ok(TokenKind::String),
            19 => Ok(TokenKind::Number),
            20 => Ok(TokenKind::And),
            21 => Ok(TokenKind::Class),
            22 => Ok(TokenKind::Else),
            23 => Ok(TokenKind::False),
            24 => Ok(TokenKind::Fun),
            25 => Ok(TokenKind::For),
            26 => Ok(TokenKind::If),
            27 => Ok(TokenKind::Nil),
            28 => Ok(TokenKind::Or),
            29 => Ok(TokenKind::Print),
            30 => Ok(TokenKind::Return),
            31 => Ok(TokenKind::Super),
            32 => Ok(TokenKind::This),
            33 => Ok(TokenKind::True),
            34 => Ok(TokenKind::Var),
            35 => Ok(TokenKind::While),
            other => Err(other),
        }
    }
}

impl LoxToken {
    pub fn get_start(&self) -> (r: Position)
        ensures
            r == self.span.start,
    {
        self.span.start
    }

    pub fn kind(&self) -> (r: TokenKind)
        ensures
            r == self.kind,
    {
        self.kind
    }

    /// The byte range of the token in the source.
    pub fn range(&self) -> (r: std::ops::Range<usize>)
        ensures
            r.start == self.span.start.byte,
            r.end == self.span.end.byte,
    {
        self.span.start.byte..self.span.end.byte
    }
}

impl LoxParseErr {
    pub fn get_start(&self) -> (r: Position)
        ensures
            r == self.span.start,
    {
        self.span.start
    }
}

/// The name of each kind of token.
pub open spec fn token_kind_name(k: TokenKind) -> Seq<char> {
    match k {
        TokenKind::LeftParen => "LeftParen"@,
        TokenKind::RightParen => "RightParen"@,
        TokenKind::LeftBrace => "LeftBrace"@,
        TokenKind::RightBrace => "RightBrace"@,
        TokenKind::Comma => "Comma"@,
        TokenKind::Dot => "Dot"@,
        TokenKind::Minus => "Minus"@,
        TokenKind::Plus => "Plus"@,
        TokenKind::Semicolon => "Semicolon"@,
        TokenKind::Slash => "Slash"@,
        TokenKind::Star => "Star"@,
        TokenKind::Bang => "Bang"@,
        TokenKind::BangEqual => "BangEqual"@,
        TokenKind::Equal => "Equal"@,
        TokenKind::EqualEqual => "EqualEqual"@,
        TokenKind::Greater => "Greater"@,
        TokenKind::GreaterEqual => "GreaterEqual"@,
        TokenKind::Less => "Less"@,
        TokenKind::LessEqual => "LessEqual"@,
        TokenKind::Identifier => "Identifier"@,
        TokenKind::String => "String"@,
        TokenKind::Number => "Number"@,
        TokenKind::And => "And"@,
        TokenKind::Class => "Class"@,
        TokenKind::Else => "Else"@,
        TokenKind::False => "False"@,
        TokenKind::Fun => "Fun"@,
        TokenKind::For => "For"@,
        TokenKind::If => "If"@,
        TokenKind::Nil => "Nil"@,
        TokenKind::Or => "Or"@,
        TokenKind::Print => "Print"@,
        TokenKind::Return => "Return"@,
        TokenKind::Super => "Super"@,
        TokenKind::This => "This"@,
        TokenKind::True => "True"@,
        TokenKind::Var => "Var"@,
        TokenKind::While => "While"@,
        TokenKind::EOF => "EOF"@,
    }
}

/// The name of each kind of tokenizer error.
pub open spec fn err_kind_name(k: ErrKind) -> Seq<char> {
    match k {
        ErrKind::InvalidChar => "InvalidChar"@,
        ErrKind::TrailingPeriod => "TrailingPeriod"@,
        ErrKind::UnexpectedEOF => "UnexpectedEOF"@,
    }
}

/// A position as text: `line: L, column: C`.
pub open spec fn position_text(p: Position) -> Seq<char> {
    "line: "@ + decimal(p.line as nat) + ", column: "@ + decimal(p.col as nat)
}

impl TokenKind {
    /// The name of the kind.
    pub fn name(&self) -> (r: &'static str)
        ensures
            r@ == token_kind_name(*self),
    {
        match self {
            TokenKind::LeftParen => "LeftParen",
            TokenKind::RightParen => "RightParen",
            TokenKind::LeftBrace => "LeftBrace",
            TokenKind::RightBrace => "RightBrace",
            TokenKind::Comma => "Comma",
            TokenKind::Dot => "Dot",
            TokenKind::Minus => "Minus",
            TokenKind::Plus => "Plus",
            TokenKind::Semicolon => "Semicolon",
            TokenKind::Slash => "Slash",
            TokenKind::Star => "Star",
            TokenKind::Bang => "Bang",
            TokenKind::BangEqual => "BangEqual",
            TokenKind::Equal => "Equal",
            TokenKind::EqualEqual => "EqualEqual",
            TokenKind::Greater => "Greater",
            TokenKind::GreaterEqual => "GreaterEqual",
            TokenKind::Less => "Less",
            TokenKind::LessEqual => "LessEqual",
            TokenKind::Identifier => "Identifier",
            TokenKind::String => "String",
            TokenKind::Number => "Number",
            TokenKind::And => "And",
            TokenKind::Class => "Class",
            TokenKind::Else => "Else",
            TokenKind::False => "False",
            TokenKind::Fun => "Fun",
            TokenKind::For => "For",
            TokenKind::If => "If",
            TokenKind::Nil => "Nil",
            TokenKind::Or => "Or",
            TokenKind::Print => "Print",
            TokenKind::Return => "Return",
            TokenKind::Super => "Super",
            TokenKind::This => "This",
            TokenKind::True => "True",
            TokenKind::Var => "Var",
            TokenKind::While => "While",
            TokenKind::EOF => "EOF",
        }
    }
}

impl ErrKind {
    /// The name of the kind.
    pub fn name(&self) -> (r: &'static str)
        ensures
            r@ == err_kind_name(*self),
    {
        match self {
            ErrKind::InvalidChar => "InvalidChar",
            ErrKind::TrailingPeriod => "TrailingPeriod",
            ErrKind::UnexpectedEOF => "UnexpectedEOF",
        }
    }
}

impl Position {
    /// The position as text: `line: L, column: C`.
    pub fn describe(&self) -> (r: String)
        ensures
            r@ == position_text(*self),
    {
        let mut s = String::new();
        s.append("line: ");
        let line = decimal_string(self.line);
        s.append(line.as_str());
        s.append(", column: ");
        let col = decimal_string(self.col);
        s.append(col.as_str());
        s
    }
}

impl LoxParseErr {
    /// The error as text: `[line: L, column: C] Kind`.
    pub fn describe(&self) -> (r: String)
        ensures
            r@ == "["@ + position_text(self.span.start) + "] "@ + err_kind_name(self.kind),
    {
        let mut s = String::new();
        s.append("[");
        let p = self.span.start.describe();
        s.append(p.as_str());
        s.append("] ");
        s.append(self.kind.name());
        s
    }
}

/// The start of the text.
pub open spec fn start_position() -> Position {
    Position { line: 0, col: 0, byte: 0 }
}

/// The number of newlines among the first `n` characters of the text.
pub open spec fn newlines_in(t: Seq<(usize, char)>, n: int) -> nat
    decreases n,
{
    if n <= 0 {
        0
    } else {
        newlines_in(t, n - 1) + if t[n - 1].1 == '\n' {
            1nat
        } else {
            0nat
        }
    }
}

/// The column reached after the first `n` characters: a newline resets it to
/// zero, any other character moves it on by one.
pub open spec fn column_after(t: Seq<(usize, char)>, n: int) -> nat
    decreases n,
{
    if n <= 0 {
        0
    } else if t[n - 1].1 == '\n' {
        0
    } else {
        column_after(t, n - 1) + 1
    }
}

/// The position of the `n`-th character (counting from one), that is, where
/// the tokenizer stands once it has consumed `n` characters.
pub open spec fn position_after(t: Seq<(usize, char)>, n: int) -> Position {
    if n <= 0 {
        start_position()
    } else {
        Position {
            line: newlines_in(t, n) as usize,
            col: column_after(t, n) as usize,
            byte: t[n - 1].0,
        }
    }
}

/// Where the tokenizer stands once it has run past the last character: line
/// and column stay where the last character left them, the byte offset is
/// the length of the text in bytes.
pub open spec fn eof_position(t: Seq<(usize, char)>, byte_len: usize) -> Position {
    Position {
        line: newlines_in(t, t.len() as int) as usize,
        col: column_after(t, t.len() as int) as usize,
        byte: byte_len,
    }
}

/// The position of the character at index `n`, the next one to be consumed,
/// or the end-of-text position when there is none.
pub open spec fn peek_position_at(t: Seq<(usize, char)>, byte_len: usize, n: int) -> Position {
    if n < t.len() {
        position_after(t, n + 1)
    } else {
        eof_position(t, byte_len)
    }
}

/// Lines and columns never outnumber the characters counted.
pub proof fn lemma_counts_bounded(t: Seq<(usize, char)>, n: int)
    requires
        0 <= n,
    ensures
        newlines_in(t, n) <= n,
        column_after(t, n) <= n,
    decreases n,
{
    if n > 0 {
        lemma_counts_bounded(t, n - 1);
    }
}

pub open spec fn is_digit(c: char) -> bool {
    '0' <= c && c <= '9'
}

pub open spec fn is_ident_start(c: char) -> bool {
    ('a' <= c && c <= 'z') || ('A' <= c && c <= 'Z') || c == '_'
}

pub open spec fn is_ident_char(c: char) -> bool {
    is_ident_start(c) || is_digit(c)
}

/// ASCII whitespace: space, tab, line feed, form feed, carriage return.
pub open spec fn is_ascii_space(c: char) -> bool {
    c == ' ' || c == '\t' || c == '\n' || c == '\x0C' || c == '\r'
}

pub open spec fn digit_class() -> spec_fn(char) -> bool {
    |c: char| is_digit(c)
}

pub open spec fn ident_class() -> spec_fn(char) -> bool {
    |c: char| is_ident_char(c)
}

pub open spec fn ident_start_class() -> spec_fn(char) -> bool {
    |c: char| is_ident_start(c)
}

pub open spec fn not_newline_class() -> spec_fn(char) -> bool {
    |c: char| c != '\n'
}

pub open spec fn not_star_class() -> spec_fn(char) -> bool {
    |c: char| c != '*'
}

/// The first index at or after `k` whose character fails `p`, or the length.
pub open spec fn run_end(t: Seq<(usize, char)>, k: int, p: spec_fn(char) -> bool) -> int
    decreases t.len() - k,
{
    if k >= t.len() || k < 0 || !p(t[k].1) {
        k
    } else {
        run_end(t, k + 1, p)
    }
}

/// Where a `//` comment whose body starts at `k` ends: just past its newline,
/// or at the end of the text.
pub open spec fn line_comment_end(t: Seq<(usize, char)>, k: int) -> int
    decreases t.len() - k,
{
    if k >= t.len() || k < 0 {
        t.len() as int
    } else if t[k].1 == '\n' {
        k + 1
    } else {
        line_comment_end(t, k + 1)
    }
}

/// Where a `/*` comment whose body starts at `k` ends: just past the first
/// `*/`, or at the end of the text.
pub open spec fn block_comment_end(t: Seq<(usize, char)>, k: int) -> int
    decreases t.len() - k,
{
    if k >= t.len() || k < 0 {
        t.len() as int
    } else if t[k].1 == '*' && k + 1 < t.len() && t[k + 1].1 == '/' {
        k + 2
    } else {
        block_comment_end(t, k + 1)
    }
}

/// The index of the quote that closes a string whose body starts at `k`, or
/// the length when there is none. A quote right after a backslash does not
/// close the string.
pub open spec fn string_close(t: Seq<(usize, char)>, k: int, escaped: bool) -> int
    decreases t.len() - k,
{
    if k >= t.len() || k < 0 {
        t.len() as int
    } else if t[k].1 == '"' && !escaped {
        k
    } else {
        string_close(t, k + 1, t[k].1 == '\\')
    }
}

/// The characters at indices `i` up to `j`.
pub open spec fn word(t: Seq<(usize, char)>, i: int, j: int) -> Seq<char> {
    t.subrange(i, j).map_values(|p: (usize, char)| p.1)
}

/// The kind of an identifier-shaped word: a keyword, or `Identifier`.
pub open spec fn keyword_kind(w: Seq<char>) -> TokenKind {
    if w == seq!['a', 'n', 'd'] {
        TokenKind::And
    } else if w == seq!['c', 'l', 'a', 's', 's'] {
        TokenKind::Class
    } else if w == seq!['e', 'l', 's', 'e'] {
        TokenKind::Else
    } else if w == seq!['f', 'a', 'l', 's', 'e'] {
        TokenKind::False
    } else if w == seq!['f', 'u', 'n'] {
        TokenKind::Fun
    } else if w == seq!['f', 'o', 'r'] {
        TokenKind::For
    } else if w == seq!['i', 'f'] {
        TokenKind::If
    } else if w == seq!['n', 'i', 'l'] {
        TokenKind::Nil
    } else if w == seq!['o', 'r'] {
        TokenKind::Or
    } else if w == seq!['p', 'r', 'i', 'n', 't'] {
        TokenKind::Print
    } else if w == seq!['r', 'e', 't', 'u', 'r', 'n'] {
        TokenKind::Return
    } else if w == seq!['s', 'u', 'p', 'e', 'r'] {
        TokenKind::Super
    } else if w == seq!['t', 'h', 'i', 's'] {
        TokenKind::This
    } else if w == seq!['t', 'r', 'u', 'e'] {
        TokenKind::True
    } else if w == seq!['v', 'a', 'r'] {
        TokenKind::Var
    } else if w == seq!['w', 'h', 'i', 'l', 'e'] {
        TokenKind::While
    } else {
        TokenKind::Identifier
    }
}

/// A token of kind `kind` made of the characters at indices `i` up to `j`.
pub open spec fn token_at(
    t: Seq<(usize, char)>,
    byte_len: usize,
    kind: TokenKind,
    i: int,
    j: int,
) -> LoxToken {
    LoxToken {
        kind,
        span: Span { start: position_after(t, i + 1), end: peek_position_at(t, byte_len, j) },
    }
}

/// A one-character token at index `i`, and the index after it.
pub open spec fn single(t: Seq<(usize, char)>, byte_len: usize, kind: TokenKind, i: int) -> (
    Option<Result<LoxToken, LoxParseErr>>,
    int,
) {
    (Some(Ok(token_at(t, byte_len, kind, i, i + 1))), i + 1)
}

/// A one- or two-character token at index `i`: `two` when the next character
/// is `=`, `one` otherwise.
pub open spec fn with_equal(
    t: Seq<(usize, char)>,
    byte_len: usize,
    one: TokenKind,
    two: TokenKind,
    i: int,
) -> (Option<Result<LoxToken, LoxParseErr>>, int) {
    if i + 1 < t.len() && t[i + 1].1 == '=' {
        (Some(Ok(token_at(t, byte_len, two, i, i + 2))), i + 2)
    } else {
        single(t, byte_len, one, i)
    }
}

/// The number that starts with the digit at index `i`: digits, then
/// optionally a period and at least one more digit. A period with no digit
/// after it is a `TrailingPeriod` error spanning the period.
pub open spec fn lex_number(t: Seq<(usize, char)>, byte_len: usize, i: int) -> (
    Result<LoxToken, LoxParseErr>,
    int,
) {
    let j = run_end(t, i + 1, digit_class());
    if j < t.len() && t[j].1 == '.' {
        if j + 1 < t.len() && is_digit(t[j + 1].1) {
            let k = run_end(t, j + 2, digit_class());
            (Ok(token_at(t, byte_len, TokenKind::Number, i, k)), k)
        } else {
            (
                Err(
                    LoxParseErr {
                        kind: ErrKind::TrailingPeriod,
                        span: Span {
                            start: position_after(t, j + 1),
                            end: peek_position_at(t, byte_len, j + 1),
                        },
                    },
                ),
                j + 1,
            )
        }
    } else {
        (Ok(token_at(t, byte_len, TokenKind::Number, i, j)), j)
    }
}

/// The string whose opening quote is at index `i`, quotes included; with no
/// closing quote, an `UnexpectedEOF` error spanning from the opening quote to
/// the end of the text.
pub open spec fn lex_string(t: Seq<(usize, char)>, byte_len: usize, i: int) -> (
    Result<LoxToken, LoxParseErr>,
    int,
) {
    let q = string_close(t, i + 1, false);
    if q < t.len() {
        (Ok(token_at(t, byte_len, TokenKind::String, i, q + 1)), q + 1)
    } else {
        (
            Err(
                LoxParseErr {
                    kind: ErrKind::UnexpectedEOF,
                    span: Span {
                        start: position_after(t, i + 1),
                        end: eof_position(t, byte_len),
                    },
                },
            ),
            t.len() as int,
        )
    }
}

/// The identifier or keyword whose first character is at index `i`.
pub open spec fn lex_identifier(t: Seq<(usize, char)>, byte_len: usize, i: int) -> (
    LoxToken,
    int,
) {
    let j = run_end(t, i + 1, ident_class());
    (token_at(t, byte_len, keyword_kind(word(t, i, j)), i, j), j)
}

/// A line comment ends within the text, at or after where it is scanned from.
pub proof fn lemma_line_comment_end_moves(t: Seq<(usize, char)>, k: int)
    requires
        0 <= k <= t.len(),
    ensures
        k <= line_comment_end(t, k) <= t.len(),
    decreases t.len() - k,
{
    if k < t.len() && t[k].1 != '\n' {
        lemma_line_comment_end_moves(t, k + 1);
    }
}

/// A block comment ends within the text, at or after where it is scanned from.
pub proof fn lemma_block_comment_end_moves(t: Seq<(usize, char)>, k: int)
    requires
        0 <= k <= t.len(),
    ensures
        k <= block_comment_end(t, k) <= t.len(),
    decreases t.len() - k,
{
    if k < t.len() && !(t[k].1 == '*' && k + 1 < t.len() && t[k + 1].1 == '/') {
        lemma_block_comment_end_moves(t, k + 1);
    }
}

/// A run of characters of one class ends within the text; every character
/// in it is of the class, and the one after it is not.
pub proof fn lemma_run_end_moves(t: Seq<(usize, char)>, k: int, p: spec_fn(char) -> bool)
    requires
        0 <= k <= t.len(),
    ensures
        k <= run_end(t, k, p) <= t.len(),
        forall|m: int| k <= m < run_end(t, k, p) ==> p(#[trigger] t[m].1),
        run_end(t, k, p) < t.len() ==> !p(t[run_end(t, k, p)].1),
    decreases t.len() - k,
{
    if k < t.len() && p(t[k].1) {
        lemma_run_end_moves(t, k + 1, p);
    }
}

/// The search for a closing quote ends within the text.
pub proof fn lemma_string_close_moves(t: Seq<(usize, char)>, k: int, escaped: bool)
    requires
        0 <= k <= t.len(),
    ensures
        k <= string_close(t, k, escaped) <= t.len(),
    decreases t.len() - k,
{
    if k < t.len() && !(t[k].1 == '"' && !escaped) {
        lemma_string_close_moves(t, k + 1, t[k].1 == '\\');
    }
}

/// A line comment ends just past the first newline, or at the end of the text.
pub proof fn lemma_line_comment_end_by_run(t: Seq<(usize, char)>, k: int)
    requires
        0 <= k <= t.len(),
    ensures
        line_comment_end(t, k) == if run_end(t, k, not_newline_class()) < t.len() {
            run_end(t, k, not_newline_class()) + 1
        } else {
            run_end(t, k, not_newline_class())
        },
    decreases t.len() - k,
{
    if k < t.len() && t[k].1 != '\n' {
        lemma_line_comment_end_by_run(t, k + 1);
    }
}

/// Characters other than `*` can be skipped in one run when looking for the
/// end of a block comment.
pub proof fn lemma_block_comment_end_by_run(t: Seq<(usize, char)>, k: int)
    requires
        0 <= k <= t.len(),
    ensures
        block_comment_end(t, k) == block_comment_end(t, run_end(t, k, not_star_class())),
    decreases t.len() - k,
{
    if k < t.len() && t[k].1 != '*' {
        lemma_block_comment_end_by_run(t, k + 1);
    }
}

/// What the tokenizer yields when it stands before the character at index
/// `i`, and the index it stands before afterwards. Whitespace and comments
/// are skipped; `None` means the end of the text.
pub open spec fn lex_at(t: Seq<(usize, char)>, byte_len: usize, i: int) -> (
    Option<Result<LoxToken, LoxParseErr>>,
    int,
)
    decreases t.len() - i,
{
    if i >= t.len() || i < 0 {
        (None, t.len() as int)
    } else {
        let c = t[i].1;
        if c == '(' {
            single(t, byte_len, TokenKind::LeftParen, i)
        } else if c == ')' {
            single(t, byte_len, TokenKind::RightParen, i)
        } else if c == '{' {
            single(t, byte_len, TokenKind::LeftBrace, i)
        } else if c == '}' {
            single(t, byte_len, TokenKind::RightBrace, i)
        } else if c == ',' {
            single(t, byte_len, TokenKind::Comma, i)
        } else if c == '.' {
            single(t, byte_len, TokenKind::Dot, i)
        } else if c == '-' {
            single(t, byte_len, TokenKind::Minus, i)
        } else if c == '+' {
            single(t, byte_len, TokenKind::Plus, i)
        } else if c == ';' {
            single(t, byte_len, TokenKind::Semicolon, i)
        } else if c == '/' {
            if i + 1 < t.len() && t[i + 1].1 == '/' {
                proof {
                    lemma_line_comment_end_moves(t, i + 2);
                }
                lex_at(t, byte_len, line_comment_end(t, i + 2))
            } else if i + 1 < t.len() && t[i + 1].1 == '*' {
                proof {
                    lemma_block_comment_end_moves(t, i + 2);
                }
                lex_at(t, byte_len, block_comment_end(t, i + 2))
            } else {
                single(t, byte_len, TokenKind::Slash, i)
            }
        } else if c == '*' {
            single(t, byte_len, TokenKind::Star, i)
        } else if c == '!' {
            with_equal(t, byte_len, TokenKind::Bang, TokenKind::BangEqual, i)
        } else if c == '=' {
            with_equal(t, byte_len, TokenKind::Equal, TokenKind::EqualEqual, i)
        } else if c == '>' {
            with_equal(t, byte_len, TokenKind::Greater, TokenKind::GreaterEqual, i)
        } else if c == '<' {
            with_equal(t, byte_len, TokenKind::Less, TokenKind::LessEqual, i)
        } else if is_digit(c) {
            let (r, j) = lex_number(t, byte_len, i);
            (Some(r), j)
        } else if c == '"' {
            let (r, j) = lex_string(t, byte_len, i);
            (Some(r), j)
        } else if is_ident_start(c) {
            let (tok, j) = lex_identifier(t, byte_len, i);
            (Some(Ok(tok)), j)
        } else if is_ascii_space(c) {
            lex_at(t, byte_len, i + 1)
        } else {
            (
                Some(
                    Err(
                        LoxParseErr {
                            kind: ErrKind::InvalidChar,
                            span: Span {
                                start: position_after(t, i + 1),
                                end: peek_position_at(t, byte_len, i + 1),
                            },
                        },
                    ),
                ),
                i + 1,
            )
        }
    }
}


/// Each step of the tokenizer moves forward within the text, and strictly
/// forward whenever it yields something.
pub proof fn lemma_lex_at_advances(t: Seq<(usize, char)>, byte_len: usize, i: int)
    requires
        0 <= i <= t.len(),
    ensures
        i <= lex_at(t, byte_len, i).1 <= t.len(),
        lex_at(t, byte_len, i).0 is Some ==> i < lex_at(t, byte_len, i).1,
        lex_at(t, byte_len, i).0 is None ==> lex_at(t, byte_len, i).1 == t.len(),
    decreases t.len() - i,
{
    if i < t.len() {
        let c = t[i].1;
        if c == '/' && i + 1 < t.len() && t[i + 1].1 == '/' {
            lemma_line_comment_end_moves(t, i + 2);
            lemma_lex_at_advances(t, byte_len, line_comment_end(t, i + 2));
        } else if c == '/' && i + 1 < t.len() && t[i + 1].1 == '*' {
            lemma_block_comment_end_moves(t, i + 2);
            lemma_lex_at_advances(t, byte_len, block_comment_end(t, i + 2));
        } else if is_digit(c) {
            lemma_run_end_moves(t, i + 1, digit_class());
            let j = run_end(t, i + 1, digit_class());
            if j + 1 < t.len() {
                lemma_run_end_moves(t, j + 2, digit_class());
            }
        } else if c == '"' {
            lemma_string_close_moves(t, i + 1, false);
        } else if is_ident_start(c) {
            lemma_run_end_moves(t, i + 1, ident_class());
        } else if is_ascii_space(c) {
            lemma_lex_at_advances(t, byte_len, i + 1);
        }
    }
}

/// Every result the tokenizer yields from index `i` to the end of the text.
pub open spec fn lex_from(t: Seq<(usize, char)>, byte_len: usize, i: int) -> Seq<
    Result<LoxToken, LoxParseErr>,
>
    decreases t.len() - i,
{
    if i < 0 || i > t.len() {
        seq![]
    } else {
        match lex_at(t, byte_len, i).0 {
            None => seq![],
            Some(x) => {
                let j = lex_at(t, byte_len, i).1;
                if i < j <= t.len() {
                    seq![x] + lex_from(t, byte_len, j)
                } else {
                    seq![x]
                }
            },
        }
    }
}

/// The token runs from a quote at index `a` through a quote at a later index
/// `q`: it spans at least two characters.
pub open spec fn quoted_span(t: Seq<(usize, char)>, byte_len: usize, tok: LoxToken) -> bool {
    exists|a: int, q: int|
        #![trigger t[a], t[q]]
        0 <= a < q < t.len() && t[a].1 == '"' && t[q].1 == '"' && tok.span.start.byte == t[a].0
            && tok.span.end.byte == peek_position_at(t, byte_len, q + 1).byte
}

/// A string closes on a quote.
pub proof fn lemma_string_close_quote(t: Seq<(usize, char)>, k: int, escaped: bool)
    requires
        0 <= k <= t.len(),
    ensures
        string_close(t, k, escaped) < t.len() ==> t[string_close(t, k, escaped)].1 == '"',
    decreases t.len() - k,
{
    if k < t.len() && !(t[k].1 == '"' && !escaped) {
        lemma_string_close_quote(t, k + 1, t[k].1 == '\\');
    }
}

/// Every string token spans at least its two quotes.
pub proof fn lemma_lex_at_strings(t: Seq<(usize, char)>, byte_len: usize, i: int)
    requires
        0 <= i <= t.len(),
    ensures
        lex_at(t, byte_len, i).0 matches Some(Ok(tok)) ==> (tok.kind == TokenKind::String
            ==> quoted_span(t, byte_len, tok)),
    decreases t.len() - i,
{
    if i < t.len() {
        let c = t[i].1;
        if c == '/' && i + 1 < t.len() && t[i + 1].1 == '/' {
            lemma_line_comment_end_moves(t, i + 2);
            lemma_lex_at_strings(t, byte_len, line_comment_end(t, i + 2));
        } else if c == '/' && i + 1 < t.len() && t[i + 1].1 == '*' {
            lemma_block_comment_end_moves(t, i + 2);
            lemma_lex_at_strings(t, byte_len, block_comment_end(t, i + 2));
        } else if c == '"' {
            lemma_string_close_moves(t, i + 1, false);
            let q = string_close(t, i + 1, false);
            if q < t.len() {
                assert(t[q].1 == '"') by {
                    lemma_string_close_quote(t, i + 1, false);
                }
                assert(t[i].1 == '"' && t[q].1 == '"');
            }
        } else if is_ascii_space(c) {
            lemma_lex_at_strings(t, byte_len, i + 1);
        }
    }
}

/// Every string token the tokenizer yields from index `i` on spans at least
/// two characters.
pub proof fn lemma_lex_from_strings(t: Seq<(usize, char)>, byte_len: usize, i: int)
    requires
        0 <= i <= t.len(),
    ensures
        forall|m: int|
            0 <= m < lex_from(t, byte_len, i).len() ==> (#[trigger] lex_from(t, byte_len, i)[m] matches Ok(
                tok,
            ) ==> (tok.kind == TokenKind::String ==> quoted_span(t, byte_len, tok))),
    decreases t.len() - i,
{
    lemma_lex_at_strings(t, byte_len, i);
    lemma_lex_at_advances(t, byte_len, i);
    let (r, j) = lex_at(t, byte_len, i);
    if r is Some && i < j <= t.len() {
        lemma_lex_from_strings(t, byte_len, j);
        let rest = lex_from(t, byte_len, j);
        assert forall|m: int|
            0 <= m < lex_from(t, byte_len, i).len() implies (#[trigger] lex_from(t, byte_len, i)[m] matches Ok(
            tok,
        ) ==> (tok.kind == TokenKind::String ==> quoted_span(t, byte_len, tok))) by {
            if m > 0 {
                assert(lex_from(t, byte_len, i)[m] == rest[m - 1]);
            }
        }
    }
}

/// Where a token or an error stands in the text.
pub open spec fn result_span(r: Result<LoxToken, LoxParseErr>) -> Span {
    match r {
        Ok(tok) => tok.span,
        Err(e) => e.span,
    }
}

/// The byte offset of the character at index `e`, or the length of the text
/// in bytes when `e` is past the last character.
pub open spec fn byte_at(t: Seq<(usize, char)>, byte_len: usize, e: int) -> usize {
    if e < t.len() {
        t[e].0
    } else {
        byte_len
    }
}

/// Byte offsets grow strictly from one character to the next, up to the end
/// of the text.
pub open spec fn offsets_increase(t: Seq<(usize, char)>, byte_len: usize) -> bool {
    forall|x: int, y: int|
        #![trigger byte_at(t, byte_len, x), byte_at(t, byte_len, y)]
        0 <= x < y <= t.len() ==> byte_at(t, byte_len, x) < byte_at(t, byte_len, y)
}

/// What one step of the tokenizer yields from index `i` starts at or after
/// the byte of that index, spans at least one byte, and ends at or before the
/// byte of the index the step stops at.
pub proof fn lemma_lex_at_in_order(t: Seq<(usize, char)>, byte_len: usize, i: int)
    requires
        0 <= i <= t.len(),
        offsets_increase(t, byte_len),
    ensures
        lex_at(t, byte_len, i).0 matches Some(x) ==> {
            &&& byte_at(t, byte_len, i) <= result_span(x).start.byte
            &&& result_span(x).start.byte < result_span(x).end.byte
            &&& result_span(x).end.byte <= byte_at(t, byte_len, lex_at(t, byte_len, i).1)
        },
    decreases t.len() - i,
{
    if i < t.len() {
        let c = t[i].1;
        let n = t.len() as int;
        assert(byte_at(t, byte_len, i) == t[i].0);
        if c == '/' && i + 1 < n && t[i + 1].1 == '/' {
            let k = line_comment_end(t, i + 2);
            lemma_line_comment_end_moves(t, i + 2);
            lemma_lex_at_in_order(t, byte_len, k);
            assert(byte_at(t, byte_len, i) < byte_at(t, byte_len, k));
        } else if c == '/' && i + 1 < n && t[i + 1].1 == '*' {
            let k = block_comment_end(t, i + 2);
            lemma_block_comment_end_moves(t, i + 2);
            lemma_lex_at_in_order(t, byte_len, k);
            assert(byte_at(t, byte_len, i) < byte_at(t, byte_len, k));
        } else if is_ascii_space(c) && !is_digit(c) && c != '"' && !is_ident_start(c) {
            lemma_lex_at_in_order(t, byte_len, i + 1);
            assert(byte_at(t, byte_len, i) < byte_at(t, byte_len, i + 1));
        } else {
            lemma_lex_at_advances(t, byte_len, i);
            let j = lex_at(t, byte_len, i).1;
            if is_digit(c) {
                let d = run_end(t, i + 1, digit_class());
                lemma_run_end_moves(t, i + 1, digit_class());
                if d < n && t[d].1 == '.' {
                    if d + 1 < n && is_digit(t[d + 1].1) {
                        lemma_run_end_moves(t, d + 2, digit_class());
                        assert(byte_at(t, byte_len, i) < byte_at(t, byte_len, j));
                    } else {
                        assert(byte_at(t, byte_len, i) < byte_at(t, byte_len, d));
                        assert(byte_at(t, byte_len, d) < byte_at(t, byte_len, d + 1));
                    }
                } else {
                    assert(byte_at(t, byte_len, i) < byte_at(t, byte_len, j));
                }
            } else {
                assert(byte_at(t, byte_len, i) < byte_at(t, byte_len, j));
            }
        }
    }
}

/// What the tokenizer yields from index `i` on stands between the byte of
/// that index and the end of the text, each result spanning at least one
/// byte, every result ending before any later one starts.
pub proof fn lemma_lex_from_in_order(t: Seq<(usize, char)>, byte_len: usize, i: int)
    requires
        0 <= i <= t.len(),
        offsets_increase(t, byte_len),
    ensures
        forall|m: int|
            0 <= m < lex_from(t, byte_len, i).len() ==> {
                &&& byte_at(t, byte_len, i) <= result_span(
                    #[trigger] lex_from(t, byte_len, i)[m],
                ).start.byte
                &&& result_span(lex_from(t, byte_len, i)[m]).start.byte < result_span(
                    lex_from(t, byte_len, i)[m],
                ).end.byte
                &&& result_span(lex_from(t, byte_len, i)[m]).end.byte <= byte_at(
                    t,
                    byte_len,
                    t.len() as int,
                )
            },
        forall|m: int, l: int|
            0 <= m < l < lex_from(t, byte_len, i).len() ==> result_span(
                #[trigger] lex_from(t, byte_len, i)[m],
            ).end.byte <= result_span(#[trigger] lex_from(t, byte_len, i)[l]).start.byte,
    decreases t.len() - i,
{
    lemma_lex_at_in_order(t, byte_len, i);
    lemma_lex_at_advances(t, byte_len, i);
    let (r, j) = lex_at(t, byte_len, i);
    let all = lex_from(t, byte_len, i);
    if let Some(x) = r {
        assert(all[0] == x);
        if i < j <= t.len() {
            lemma_lex_from_in_order(t, byte_len, j);
            let rest = lex_from(t, byte_len, j);
            assert(all == seq![x] + rest);
            assert(byte_at(t, byte_len, i) < byte_at(t, byte_len, j));
            if j < t.len() {
                assert(byte_at(t, byte_len, j) < byte_at(t, byte_len, t.len() as int));
            }
            assert forall|m: int| 0 <= m < all.len() implies {
                &&& byte_at(t, byte_len, i) <= result_span(#[trigger] all[m]).start.byte
                &&& result_span(all[m]).start.byte < result_span(all[m]).end.byte
                &&& result_span(all[m]).end.byte <= byte_at(t, byte_len, t.len() as int)
            } by {
                if m > 0 {
                    assert(all[m] == rest[m - 1]);
                }
            }
            assert forall|m: int, l: int| 0 <= m < l < all.len() implies result_span(
                #[trigger] all[m],
            ).end.byte <= result_span(#[trigger] all[l]).start.byte by {
                assert(all[l] == rest[l - 1]);
                if m > 0 {
                    assert(all[m] == rest[m - 1]);
                }
            }
        }
    }
}

/// In a text laid out as `char_indices` lays out a string, byte offsets grow
/// from one character to the next, up to the length of the encoding.
pub proof fn lemma_char_table_offsets_increase(s: Seq<char>, byte_len: usize)
    requires
        byte_len as nat == vstd::utf8::encode_utf8(s).len(),
    ensures
        offsets_increase(char_table(s), byte_len),
{
    let t = char_table(s);
    crate::source::lemma_encoding_length(s);
    assert forall|x: int, y: int| 0 <= x < y <= t.len() implies byte_at(t, byte_len, x) < byte_at(
        t,
        byte_len,
        y,
    ) by {
        crate::source::lemma_byte_offset_grows(s, x, y);
        crate::source::lemma_byte_offset_grows(s, y, s.len() as int);
    }
}

/// The tokenizer yields its tokens and errors in the order in which they
/// stand in the source: each spans at least one byte, ends within the
/// source, and ends before any later one starts.
pub proof fn lemma_results_in_source_order(s: Seq<char>, byte_len: usize)
    requires
        byte_len as nat == vstd::utf8::encode_utf8(s).len(),
    ensures
        forall|m: int|
            0 <= m < lex_from(char_table(s), byte_len, 0).len() ==> result_span(
                #[trigger] lex_from(char_table(s), byte_len, 0)[m],
            ).start.byte < result_span(lex_from(char_table(s), byte_len, 0)[m]).end.byte
                <= byte_len,
        forall|m: int, l: int|
            0 <= m < l < lex_from(char_table(s), byte_len, 0).len() ==> result_span(
                #[trigger] lex_from(char_table(s), byte_len, 0)[m],
            ).end.byte <= result_span(
                #[trigger] lex_from(char_table(s), byte_len, 0)[l],
            ).start.byte,
{
    lemma_char_table_offsets_increase(s, byte_len);
    lemma_lex_from_in_order(char_table(s), byte_len, 0);
}

/// A step of the tokenizer never yields an end-of-text token.
pub proof fn lemma_lex_at_no_eof(t: Seq<(usize, char)>, byte_len: usize, i: int)
    requires
        0 <= i <= t.len(),
    ensures
        lex_at(t, byte_len, i).0 matches Some(Ok(tok)) ==> tok.kind != TokenKind::EOF,
    decreases t.len() - i,
{
    if i < t.len() {
        let c = t[i].1;
        if c == '/' && i + 1 < t.len() && t[i + 1].1 == '/' {
            lemma_line_comment_end_moves(t, i + 2);
            lemma_lex_at_no_eof(t, byte_len, line_comment_end(t, i + 2));
        } else if c == '/' && i + 1 < t.len() && t[i + 1].1 == '*' {
            lemma_block_comment_end_moves(t, i + 2);
            lemma_lex_at_no_eof(t, byte_len, block_comment_end(t, i + 2));
        } else if is_ascii_space(c) {
            lemma_lex_at_no_eof(t, byte_len, i + 1);
        }
    }
}

/// The tokenizer never yields an end-of-text token: the end of the text is
/// told by `None`.
pub proof fn lemma_never_yields_eof(t: Seq<(usize, char)>, byte_len: usize, i: int)
    requires
        0 <= i <= t.len(),
    ensures
        forall|m: int|
            0 <= m < lex_from(t, byte_len, i).len() ==> (#[trigger] lex_from(t, byte_len, i)[m] matches Ok(
                tok,
            ) ==> tok.kind != TokenKind::EOF),
    decreases t.len() - i,
{
    lemma_lex_at_no_eof(t, byte_len, i);
    lemma_lex_at_advances(t, byte_len, i);
    let (r, j) = lex_at(t, byte_len, i);
    if r is Some && i < j <= t.len() {
        lemma_never_yields_eof(t, byte_len, j);
        let rest = lex_from(t, byte_len, j);
        assert forall|m: int| 0 <= m < lex_from(t, byte_len, i).len() implies (
        #[trigger] lex_from(t, byte_len, i)[m] matches Ok(tok) ==> tok.kind != TokenKind::EOF) by {
            if m > 0 {
                assert(lex_from(t, byte_len, i)[m] == rest[m - 1]);
            }
        }
    }
}

/// From index `i` on, the text holds only whitespace and comments: `//` to
/// the end of the line, `/*` to the next `*/` or to the end of the text.
pub open spec fn only_blank_from(t: Seq<(usize, char)>, i: int) -> bool
    decreases t.len() - i,
{
    if i >= t.len() || i < 0 {
        true
    } else {
        let c = t[i].1;
        if c == '/' && i + 1 < t.len() && t[i + 1].1 == '/' {
            proof {
                lemma_line_comment_end_moves(t, i + 2);
            }
            only_blank_from(t, line_comment_end(t, i + 2))
        } else if c == '/' && i + 1 < t.len() && t[i + 1].1 == '*' {
            proof {
                lemma_block_comment_end_moves(t, i + 2);
            }
            only_blank_from(t, block_comment_end(t, i + 2))
        } else if is_ascii_space(c) {
            only_blank_from(t, i + 1)
        } else {
            false
        }
    }
}

/// The tokenizer answers `None` exactly when only whitespace and comments
/// remain, and once it has, it stands at the end of the text and answers
/// `None` again.
pub proof fn lemma_end_of_tokens(t: Seq<(usize, char)>, byte_len: usize, i: int)
    requires
        0 <= i <= t.len(),
    ensures
        lex_at(t, byte_len, i).0 is None <==> only_blank_from(t, i),
        lex_at(t, byte_len, i).0 is None ==> lex_at(t, byte_len, i).1 == t.len() && lex_at(
            t,
            byte_len,
            lex_at(t, byte_len, i).1,
        ).0 is None,
    decreases t.len() - i,
{
    lemma_lex_at_advances(t, byte_len, i);
    if i < t.len() {
        let c = t[i].1;
        if c == '/' && i + 1 < t.len() && t[i + 1].1 == '/' {
            lemma_line_comment_end_moves(t, i + 2);
            lemma_end_of_tokens(t, byte_len, line_comment_end(t, i + 2));
        } else if c == '/' && i + 1 < t.len() && t[i + 1].1 == '*' {
            lemma_block_comment_end_moves(t, i + 2);
            lemma_end_of_tokens(t, byte_len, block_comment_end(t, i + 2));
        } else if is_ascii_space(c) {
            lemma_end_of_tokens(t, byte_len, i + 1);
        }
    }
}

/// What a step of the tokenizer from index `i` yields starts at a character
/// at or after `i` that is no newline.
pub proof fn lemma_lex_at_start(t: Seq<(usize, char)>, byte_len: usize, i: int)
    requires
        0 <= i <= t.len(),
    ensures
        lex_at(t, byte_len, i).0 matches Some(x) ==> exists|a: int|
            #![trigger t[a]]
            i <= a < t.len() && t[a].1 != '\n' && result_span(x).start == position_after(t, a + 1),
    decreases t.len() - i,
{
    if i < t.len() {
        let c = t[i].1;
        if c == '/' && i + 1 < t.len() && t[i + 1].1 == '/' {
            lemma_line_comment_end_moves(t, i + 2);
            lemma_lex_at_start(t, byte_len, line_comment_end(t, i + 2));
        } else if c == '/' && i + 1 < t.len() && t[i + 1].1 == '*' {
            lemma_block_comment_end_moves(t, i + 2);
            lemma_lex_at_start(t, byte_len, block_comment_end(t, i + 2));
        } else if is_ascii_space(c) {
            lemma_lex_at_start(t, byte_len, i + 1);
        } else if is_digit(c) {
            let d = run_end(t, i + 1, digit_class());
            lemma_run_end_moves(t, i + 1, digit_class());
            if d < t.len() && t[d].1 == '.' && !(d + 1 < t.len() && is_digit(t[d + 1].1)) {
                assert(t[d].1 != '\n');
            } else {
                assert(t[i].1 != '\n');
            }
        } else {
            assert(t[i].1 != '\n');
        }
    }
}

/// Each token or error the tokenizer yields starts at a character that is
/// no newline, at the line that counts the newlines before that character.
pub proof fn lemma_results_start_at_their_line(t: Seq<(usize, char)>, byte_len: usize, i: int)
    requires
        0 <= i <= t.len(),
    ensures
        forall|m: int|
            0 <= m < lex_from(t, byte_len, i).len() ==> exists|a: int|
                #![trigger t[a]]
                i <= a < t.len() && t[a].1 != '\n' && result_span(
                    #[trigger] lex_from(t, byte_len, i)[m],
                ).start.byte == t[a].0 && result_span(lex_from(t, byte_len, i)[m]).start.line
                    == newlines_in(t, a) as usize,
    decreases t.len() - i,
{
    lemma_lex_at_start(t, byte_len, i);
    lemma_lex_at_advances(t, byte_len, i);
    let (r, j) = lex_at(t, byte_len, i);
    if let Some(x) = r {
        let a = choose|a: int|
            #![trigger t[a]]
            i <= a < t.len() && t[a].1 != '\n' && result_span(x).start == position_after(t, a + 1);
        assert(newlines_in(t, a + 1) == newlines_in(t, a));
        assert(t[a].1 != '\n' && result_span(x).start.byte == t[a].0);
        if i < j <= t.len() {
            lemma_results_start_at_their_line(t, byte_len, j);
            let rest = lex_from(t, byte_len, j);
            assert forall|m: int| 0 <= m < lex_from(t, byte_len, i).len() implies exists|b: int|
                #![trigger t[b]]
                i <= b < t.len() && t[b].1 != '\n' && result_span(
                    #[trigger] lex_from(t, byte_len, i)[m],
                ).start.byte == t[b].0 && result_span(lex_from(t, byte_len, i)[m]).start.line
                    == newlines_in(t, b) as usize by {
                if m > 0 {
                    assert(lex_from(t, byte_len, i)[m] == rest[m - 1]);
                } else {
                    assert(lex_from(t, byte_len, i)[0] == x);
                }
            }
        } else {
            assert(lex_from(t, byte_len, i)[0] == x);
        }
    }
}

/// Peeking at the position of the next character gives the position that
/// taking that character records, or the end-of-text position that taking
/// past the end records; the tokenizer is only read, so nothing is taken.
pub proof fn lemma_peek_is_next_position(t: Seq<(usize, char)>, byte_len: usize, n: int)
    requires
        0 <= n,
    ensures
        n < t.len() ==> peek_position_at(t, byte_len, n) == position_after(t, n + 1),
        n >= t.len() ==> peek_position_at(t, byte_len, n) == eof_position(t, byte_len),
{
}

/// The characters that may continue an identifier are exactly the ASCII
/// letters of either case, the ASCII digits and the underscore; an
/// identifier starts with one of them that is no digit.
pub proof fn lemma_identifier_characters(c: char)
    ensures
        is_ident_char(c) <==> (('a' <= c && c <= 'z') || ('A' <= c && c <= 'Z') || ('0' <= c && c <= '9') || c == '_'),
        is_ident_start(c) <==> (('a' <= c && c <= 'z') || ('A' <= c && c <= 'Z') || ('0' <= c && c <= '9') || c == '_') && !('0' <= c && c <= '9'),
{
}

/// An identifier or keyword starting at index `i` runs over every following
/// character that is an ASCII letter, digit or underscore, and stops at the
/// first one that is not (or at the end of the text): one token spans it all.
pub proof fn lemma_identifier_extent(t: Seq<(usize, char)>, byte_len: usize, i: int)
    requires
        0 <= i < t.len(),
        (('a' <= t[i].1 && t[i].1 <= 'z') || ('A' <= t[i].1 && t[i].1 <= 'Z') || ('0' <= t[i].1 && t[i].1 <= '9') || t[i].1 == '_'),
        !('0' <= t[i].1 && t[i].1 <= '9'),
    ensures
        ({
            let (r, j) = lex_at(t, byte_len, i);
            &&& i < j <= t.len()
            &&& forall|m: int| i <= m < j ==> { let c = #[trigger] t[m].1; (('a' <= c && c <= 'z') || ('A' <= c && c <= 'Z') || ('0' <= c && c <= '9') || c == '_') }
            &&& j < t.len() ==> !(('a' <= t[j].1 && t[j].1 <= 'z') || ('A' <= t[j].1 && t[j].1 <= 'Z') || ('0' <= t[j].1 && t[j].1 <= '9') || t[j].1 == '_')
            &&& r matches Some(Ok(tok))
            &&& tok.span.start == position_after(t, i + 1)
            &&& tok.span.end == peek_position_at(t, byte_len, j)
            &&& tok.kind == keyword_kind(word(t, i, j))
        }),
{
    lemma_run_end_moves(t, i + 1, ident_class());
    let j = run_end(t, i + 1, ident_class());
    assert forall|m: int| i <= m < j implies { let c = #[trigger] t[m].1; (('a' <= c && c <= 'z') || ('A' <= c && c <= 'Z') || ('0' <= c && c <= '9') || c == '_') } by {
        if m > i {
            assert(ident_class()(t[m].1));
        }
    }
    if j < t.len() {
        assert(!ident_class()(t[j].1));
    }
}

/// Reads Lox tokens from a source text, one at a time.
pub struct Tokenizer {
    chars: Vec<(usize, char)>,
    byte_len: usize,
    next_index: usize,
    current_position: Position,
}

impl Tokenizer {
    /// The characters of the source, each with its byte offset.
    pub closed spec fn text(&self) -> Seq<(usize, char)> {
        self.chars@
    }

    /// The length of the source in bytes.
    pub closed spec fn byte_length(&self) -> usize {
        self.byte_len
    }

    /// The index of the next character to be consumed.
    pub closed spec fn index(&self) -> int {
        self.next_index as int
    }

    /// The position of the character consumed last.
    pub closed spec fn position(&self) -> Position {
        self.current_position
    }

    /// The index stays within the text, and the position is that of the
    /// character consumed last, or the end-of-text position once the end has
    /// been read.
    pub closed spec fn wf(&self) -> bool {
        &&& self.next_index <= self.chars@.len()
        &&& (self.current_position == position_after(self.chars@, self.next_index as int) || (
        self.next_index == self.chars@.len() && self.current_position == eof_position(
            self.chars@,
            self.byte_len,
        )))
    }

    pub fn new(source: &str) -> (r: Tokenizer)
        ensures
            r.wf(),
            r.text() == char_table(source@),
            r.byte_length() as nat == vstd::utf8::encode_utf8(source@).len(),
            r.index() == 0,
    {
        Tokenizer {
            chars: char_indices(source),
            byte_len: byte_length(source),
            next_index: 0,
            current_position: Position::start_of_text(),
        }
    }

    /// Gets the next character, updating the position tracking on the way.
    fn next_char(&mut self) -> (r: Option<(usize, char)>)
        requires
            old(self).wf(),
        ensures
            final(self).wf(),
            final(self).text() == old(self).text(),
            final(self).byte_length() == old(self).byte_length(),
            old(self).index() < old(self).text().len() ==> r == Some(old(self).text()[old(self).index()])
                && final(self).index() == old(self).index() + 1 && final(self).position()
                == position_after(old(self).text(), old(self).index() + 1),
            old(self).index() >= old(self).text().len() ==> r == None::<(usize, char)>
                && final(self).index() == old(self).index() && final(self).position()
                == eof_position(old(self).text(), old(self).byte_length()),
    {
        if self.next_index < self.chars.len() {
            let ch_index = self.chars[self.next_index];
            proof {
                lemma_counts_bounded(self.chars@, self.next_index as int);
                lemma_counts_bounded(self.chars@, self.next_index as int + 1);
            }
            if ch_index.1 == '\n' {
                self.current_position = Position {
                    line: self.current_position.line + 1,
                    col: 0,
                    byte: ch_index.0,
                };
            } else {
                self.current_position = Position {
                    line: self.current_position.line,
                    col: self.current_position.col + 1,
                    byte: ch_index.0,
                };
            }
            self.next_index = self.next_index + 1;
            Some(ch_index)
        } else {
            // Line and column stay where they are: a position past the end of
            // the page would confuse a reader of the report.
            self.current_position = Position {
                line: self.current_position.line,
                col: self.current_position.col,
                byte: self.byte_len,
            };
            None
        }
    }

    /// The position of the next character, or the end-of-text position.
    fn peek_position(&self) -> (r: Position)
        requires
            self.wf(),
        ensures
            r == peek_position_at(self.text(), self.byte_length(), self.index()),
    {
        proof {
            lemma_counts_bounded(self.chars@, self.next_index as int);
            lemma_counts_bounded(self.chars@, self.next_index as int + 1);
        }
        if self.next_index < self.chars.len() {
            let ch_index = self.chars[self.next_index];
            if ch_index.1 == '\n' {
                Position { line: self.current_position.line + 1, col: 0, byte: ch_index.0 }
            } else {
                Position {
                    line: self.current_position.line,
                    col: self.current_position.col + 1,
                    byte: ch_index.0,
                }
            }
        } else {
            Position {
                line: self.current_position.line,
                col: self.current_position.col,
                byte: self.byte_len,
            }
        }
    }

    /// Consumes the next character when there is one and `predicate` holds of it.
    fn match_char_if<P: Fn(char) -> bool>(
        &mut self,
        predicate: &P,
        Ghost(pred): Ghost<spec_fn(char) -> bool>,
    ) -> (r: bool)
        requires
            old(self).wf(),
            forall|c: char| predicate.requires((c,)),
            forall|c: char, b: bool| predicate.ensures((c,), b) ==> b == pred(c),
        ensures
            final(self).wf(),
            final(self).text() == old(self).text(),
            final(self).byte_length() == old(self).byte_length(),
            r == (old(self).index() < old(self).text().len() && pred(
                old(self).text()[old(self).index()].1,
            )),
            r ==> final(self).index() == old(self).index() + 1 && final(self).position()
                == position_after(old(self).text(), old(self).index() + 1),
            !r ==> final(self).index() == old(self).index() && final(self).position() == old(
                self,
            ).position(),
    {
        if self.next_index < self.chars.len() {
            let ch = self.chars[self.next_index].1;
            if predicate(ch) {
                self.next_char();
                true
            } else {
                false
            }
        } else {
            false
        }
    }

    /// Consumes the next character when it is `ch`.
    fn match_char(&mut self, ch: char) -> (r: bool)
        requires
            old(self).wf(),
        ensures
            final(self).wf(),
            final(self).text() == old(self).text(),
            final(self).byte_length() == old(self).byte_length(),
            r == (old(self).index() < old(self).text().len() && old(self).text()[old(
                self,
            ).index()].1 == ch),
            r ==> final(self).index() == old(self).index() + 1 && final(self).position()
                == position_after(old(self).text(), old(self).index() + 1),
            !r ==> final(self).index() == old(self).index() && final(self).position() == old(
                self,
            ).position(),
    {
        let same = |c: char| -> (b: bool)
            ensures
                b == (c == ch),
            { c == ch };
        self.match_char_if(&same, Ghost(|c: char| c == ch))
    }

    /// The number whose first digit was consumed last; `start_pos` is the
    /// position of that digit.
    fn match_number(&mut self, start_pos: Position) -> (r: Result<LoxToken, LoxParseErr>)
        requires
            old(self).wf(),
            old(self).index() >= 1,
            is_digit(old(self).text()[old(self).index() - 1].1),
            old(self).position() == position_after(old(self).text(), old(self).index()),
            start_pos == old(self).position(),
        ensures
            final(self).wf(),
            final(self).text() == old(self).text(),
            final(self).byte_length() == old(self).byte_length(),
            (r, final(self).index()) == lex_number(
                old(self).text(),
                old(self).byte_length(),
                old(self).index() - 1,
            ),
            final(self).position() == position_after(final(self).text(), final(self).index()),
    {
        let ghost t = self.text();
        let digit = |c: char| -> (b: bool)
            ensures
                b == is_digit(c),
            { '0' <= c && c <= '9' };
        proof {
            lemma_run_end_moves(t, self.index(), digit_class());
        }
        self.match_char_while(&digit, Ghost(digit_class()));
        if self.match_char('.') {
            if !self.match_char_if(&digit, Ghost(digit_class())) {
                return Err(
                    LoxParseErr {
                        kind: ErrKind::TrailingPeriod,
                        span: Span { start: self.current_position, end: self.peek_position() },
                    },
                );
            }
            proof {
                lemma_run_end_moves(t, self.index(), digit_class());
            }
            self.match_char_while(&digit, Ghost(digit_class()));
        }
        Ok(
            LoxToken {
                kind: TokenKind::Number,
                span: Span { start: start_pos, end: self.peek_position() },
            },
        )
    }

    /// The string whose opening quote was consumed last.
    fn match_string(&mut self) -> (r: Result<LoxToken, LoxParseErr>)
        requires
            old(self).wf(),
            old(self).index() >= 1,
            old(self).text()[old(self).index() - 1].1 == '"',
            old(self).position() == position_after(old(self).text(), old(self).index()),
        ensures
            final(self).wf(),
            final(self).text() == old(self).text(),
            final(self).byte_length() == old(self).byte_length(),
            (r, final(self).index()) == lex_string(
                old(self).text(),
                old(self).byte_length(),
                old(self).index() - 1,
            ),
            final(self).position() == position_after(final(self).text(), final(self).index()),
    {
        let ghost t = self.text();
        let ghost i = self.index() - 1;
        let mut previous_was_backslash = false;
        let start_pos = self.current_position;
        while self.next_index < self.chars.len()
            invariant
                self.wf(),
                self.text() == t,
                self.byte_length() == old(self).byte_length(),
                i + 1 <= self.index(),
                string_close(t, self.index(), previous_was_backslash) == string_close(
                    t,
                    i + 1,
                    false,
                ),
                self.position() == position_after(t, self.index()),
                start_pos == position_after(t, i + 1),
            ensures
                self.wf(),
                self.text() == t,
                self.byte_length() == old(self).byte_length(),
                i + 1 <= self.index(),
                string_close(t, self.index(), previous_was_backslash) == string_close(
                    t,
                    i + 1,
                    false,
                ),
                self.position() == position_after(t, self.index()),
                self.index() == t.len() || (t[self.index()].1 == '"' && !previous_was_backslash),
            decreases t.len() - self.index(),
        {
            let ch = self.chars[self.next_index].1;
            if ch == '"' && !previous_was_backslash {
                break ;
            }
            previous_was_backslash = ch == '\\';
            self.next_char();
        }
        assert(string_close(t, self.index(), previous_was_backslash) == self.index());
        if !self.match_char('"') {
            return Err(
                LoxParseErr {
                    kind: ErrKind::UnexpectedEOF,
                    span: Span { start: start_pos, end: self.peek_position() },
                },
            );
        }
        Ok(
            LoxToken {
                kind: TokenKind::String,
                span: Span { start: start_pos, end: self.peek_position() },
            },
        )
    }

    /// Whether the characters at indices `i` up to `j` spell `kw`.
    fn word_is(&self, i: usize, j: usize, kw: &[char]) -> (r: bool)
        requires
            i <= j <= self.text().len(),
        ensures
            r == (word(self.text(), i as int, j as int) == kw@),
    {
        if j - i != kw.len() {
            return false;
        }
        let mut k: usize = 0;
        while k < kw.len()
            invariant
                i <= j <= self.chars@.len(),
                j - i == kw@.len(),
                0 <= k <= kw@.len(),
                forall|m: int| 0 <= m < k ==> self.chars@[i + m].1 == kw@[m],
            decreases kw@.len() - k,
        {
            if self.chars[i + k].1 != kw[k] {
                assert(word(self.text(), i as int, j as int)[k as int] != kw@[k as int]);
                return false;
            }
            k = k + 1;
        }
        assert(word(self.text(), i as int, j as int) =~= kw@);
        true
    }

    /// The keyword spelled by the characters at indices `i` up to `j`, or
    /// `Identifier` when they spell none.
    fn keyword_at(&self, i: usize, j: usize) -> (r: TokenKind)
        requires
            i <= j <= self.text().len(),
        ensures
            r == keyword_kind(word(self.text(), i as int, j as int)),
    {
        if self.word_is(i, j, &['a', 'n', 'd']) {
            TokenKind::And
        } else if self.word_is(i, j, &['c', 'l', 'a', 's', 's']) {
            TokenKind::Class
        } else if self.word_is(i, j, &['e', 'l', 's', 'e']) {
            TokenKind::Else
        } else if self.word_is(i, j, &['f', 'a', 'l', 's', 'e']) {
            TokenKind::False
        } else if self.word_is(i, j, &['f', 'u', 'n']) {
            TokenKind::Fun
        } else if self.word_is(i, j, &['f', 'o', 'r']) {
            TokenKind::For
        } else if self.word_is(i, j, &['i', 'f']) {
            TokenKind::If
        } else if self.word_is(i, j, &['n', 'i', 'l']) {
            TokenKind::Nil
        } else if self.word_is(i, j, &['o', 'r']) {
            TokenKind::Or
        } else if self.word_is(i, j, &['p', 'r', 'i', 'n', 't']) {
            TokenKind::Print
        } else if self.word_is(i, j, &['r', 'e', 't', 'u', 'r', 'n']) {
            TokenKind::Return
        } else if self.word_is(i, j, &['s', 'u', 'p', 'e', 'r']) {
            TokenKind::Super
        } else if self.word_is(i, j, &['t', 'h', 'i', 's']) {
            TokenKind::This
        } else if self.word_is(i, j, &['t', 'r', 'u', 'e']) {
            TokenKind::True
        } else if self.word_is(i, j, &['v', 'a', 'r']) {
            TokenKind::Var
        } else if self.word_is(i, j, &['w', 'h', 'i', 'l', 'e']) {
            TokenKind::While
        } else {
            TokenKind::Identifier
        }
    }

    /// The identifier or keyword whose first character was consumed last;
    /// `start_pos` is the position of that character.
    fn match_identifier(&mut self, start_pos: Position) -> (r: LoxToken)
        requires
            old(self).wf(),
            old(self).index() >= 1,
            is_ident_start(old(self).text()[old(self).index() - 1].1),
            old(self).position() == position_after(old(self).text(), old(self).index()),
            start_pos == old(self).position(),
        ensures
            final(self).wf(),
            final(self).text() == old(self).text(),
            final(self).byte_length() == old(self).byte_length(),
            (r, final(self).index()) == lex_identifier(
                old(self).text(),
                old(self).byte_length(),
                old(self).index() - 1,
            ),
            final(self).position() == position_after(final(self).text(), final(self).index()),
    {
        let ghost t = self.text();
        let start = self.next_index - 1;
        let ident_start = |c: char| -> (b: bool)
            ensures
                b == is_ident_start(c),
            { ('a' <= c && c <= 'z') || ('A' <= c && c <= 'Z') || c == '_' };
        let ident_char = |c: char| -> (b: bool)
            ensures
                b == is_ident_char(c),
            { ('a' <= c && c <= 'z') || ('A' <= c && c <= 'Z') || ('0' <= c && c <= '9') || c == '_' };
        self.match_char_if(&ident_start, Ghost(ident_start_class()));
        proof {
            lemma_run_end_moves(t, self.index(), ident_class());
            lemma_run_end_moves(t, start + 1, ident_class());
        }
        self.match_char_while(&ident_char, Ghost(ident_class()));
        let kind = self.keyword_at(start, self.next_index);
        LoxToken { kind, span: Span { start: start_pos, end: self.peek_position() } }
    }

    /// A token of `kind` that starts at `start` and ends before the next character.
    fn token_here(&self, kind: TokenKind, start: Position) -> (r: LoxToken)
        requires
            self.wf(),
        ensures
            r == (LoxToken {
                kind,
                span: Span {
                    start,
                    end: peek_position_at(self.text(), self.byte_length(), self.index()),
                },
            }),
    {
        LoxToken { kind, span: Span { start, end: self.peek_position() } }
    }

    /// Skips a `//` comment whose two slashes were consumed last.
    fn skip_line_comment(&mut self)
        requires
            old(self).wf(),
        ensures
            final(self).wf(),
            final(self).text() == old(self).text(),
            final(self).byte_length() == old(self).byte_length(),
            final(self).index() == line_comment_end(old(self).text(), old(self).index()),
    {
        let not_newline = |c: char| -> (b: bool)
            ensures
                b == (c != '\n'),
            { c != '\n' };
        proof {
            lemma_line_comment_end_by_run(self.text(), self.index());
            lemma_run_end_moves(self.text(), self.index(), not_newline_class());
        }
        self.match_char_while(&not_newline, Ghost(not_newline_class()));
        self.match_char('\n');
    }

    /// Skips a `/*` comment whose opening was consumed last.
    fn skip_block_comment(&mut self)
        requires
            old(self).wf(),
        ensures
            final(self).wf(),
            final(self).text() == old(self).text(),
            final(self).byte_length() == old(self).byte_length(),
            final(self).index() == block_comment_end(old(self).text(), old(self).index()),
    {
        let ghost t = self.text();
        let ghost target = block_comment_end(t, self.index());
        let not_star = |c: char| -> (b: bool)
            ensures
                b == (c != '*'),
            { c != '*' };
        proof {
            lemma_block_comment_end_moves(t, self.index());
        }
        loop
            invariant_except_break
                block_comment_end(t, self.index()) == target,
            invariant
                self.wf(),
                self.text() == t,
                self.byte_length() == old(self).byte_length(),
                forall|c: char| not_star.requires((c,)),
                forall|c: char, b: bool| not_star.ensures((c,), b) ==> b == (c != '*'),
                self.index() <= target <= t.len(),
            ensures
                self.wf(),
                self.text() == t,
                self.byte_length() == old(self).byte_length(),
                self.index() == target,
            decreases t.len() - self.index(),
        {
            proof {
                lemma_block_comment_end_by_run(t, self.index());
                lemma_run_end_moves(t, self.index(), not_star_class());
                lemma_block_comment_end_moves(t, run_end(t, self.index(), not_star_class()));
            }
            let ghost m = run_end(t, self.index(), not_star_class());
            self.match_char_while(&not_star, Ghost(not_star_class()));
            if self.match_char('*') && self.match_char('/') {
                assert(block_comment_end(t, m) == m + 2);
                break ;
            }
            assert(m < t.len() ==> block_comment_end(t, m) == block_comment_end(t, m + 1));
            // The comment runs to the end of the text.
            if self.next_index >= self.chars.len() {
                break ;
            }
            proof {
                lemma_block_comment_end_moves(t, self.index());
            }
        }
    }

    /// Fetches the next token, skipping whitespace and comments. `None`
    /// signifies the end of the text.
    pub fn next(&mut self) -> (r: Option<Result<LoxToken, LoxParseErr>>)
        requires
            old(self).wf(),
        ensures
            final(self).wf(),
            final(self).text() == old(self).text(),
            final(self).byte_length() == old(self).byte_length(),
            (r, final(self).index()) == lex_at(
                old(self).text(),
                old(self).byte_length(),
                old(self).index(),
            ),
            r is None ==> final(self).position() == eof_position(
                final(self).text(),
                final(self).byte_length(),
            ),
    {
        let ghost t = self.text();
        let ghost bl = self.byte_length();
        let ghost goal = lex_at(t, bl, self.index());
        loop
            invariant
                self.wf(),
                self.text() == t,
                self.byte_length() == bl,
                lex_at(t, bl, self.index()) == goal,
                t == old(self).text(),
                bl == old(self).byte_length(),
                goal == lex_at(old(self).text(), old(self).byte_length(), old(self).index()),
            decreases t.len() - self.index(),
        {
            let ghost i = self.index();
            match self.next_char() {
                None => {
                    return None;
                },
                Some(ch_index) => {
                    let token_start = self.current_position;
                    let c = ch_index.1;
                    if c == '(' {
                        return Some(Ok(self.token_here(TokenKind::LeftParen, token_start)));
                    } else if c == ')' {
                        return Some(Ok(self.token_here(TokenKind::RightParen, token_start)));
                    } else if c == '{' {
                        return Some(Ok(self.token_here(TokenKind::LeftBrace, token_start)));
                    } else if c == '}' {
                        return Some(Ok(self.token_here(TokenKind::RightBrace, token_start)));
                    } else if c == ',' {
                        return Some(Ok(self.token_here(TokenKind::Comma, token_start)));
                    } else if c == '.' {
                        return Some(Ok(self.token_here(TokenKind::Dot, token_start)));
                    } else if c == '-' {
                        return Some(Ok(self.token_here(TokenKind::Minus, token_start)));
                    } else if c == '+' {
                        return Some(Ok(self.token_here(TokenKind::Plus, token_start)));
                    } else if c == ';' {
                        return Some(Ok(self.token_here(TokenKind::Semicolon, token_start)));
                    } else if c == '/' {
                        if self.match_char('/') {
                            // A single-line comment; comments yield no token.
                            proof {
                                lemma_line_comment_end_moves(t, self.index());
                            }
                            self.skip_line_comment();
                        } else if self.match_char('*') {
                            // A multi-line comment.
                            proof {
                                lemma_block_comment_end_moves(t, self.index());
                            }
                            self.skip_block_comment();
                        } else {
                            return Some(Ok(self.token_here(TokenKind::Slash, token_start)));
                        }
                    } else if c == '*' {
                        return Some(Ok(self.token_here(TokenKind::Star, token_start)));
                    } else if c == '!' {
                        if self.match_char('=') {
                            return Some(Ok(self.token_here(TokenKind::BangEqual, token_start)));
                        } else {
                            return Some(Ok(self.token_here(TokenKind::Bang, token_start)));
                        }
                    } else if c == '=' {
                        if self.match_char('=') {
                            return Some(Ok(self.token_here(TokenKind::EqualEqual, token_start)));
                        } else {
                            return Some(Ok(self.token_here(TokenKind::Equal, token_start)));
                        }
                    } else if c == '>' {
                        if self.match_char('=') {
                            return Some(
                                Ok(self.token_here(TokenKind::GreaterEqual, token_start)),
                            );
                        } else {
                            return Some(Ok(self.token_here(TokenKind::Greater, token_start)));
                        }
                    } else if c == '<' {
                        if self.match_char('=') {
                            return Some(Ok(self.token_here(TokenKind::LessEqual, token_start)));
                        } else {
                            return Some(Ok(self.token_here(TokenKind::Less, token_start)));
                        }
                    } else if '0' <= c && c <= '9' {
                        return Some(self.match_number(token_start));
                    } else if c == '"' {
                        return Some(self.match_string());
                    } else if ('a' <= c && c <= 'z') || ('A' <= c && c <= 'Z') || c == '_' {
                        return Some(Ok(self.match_identifier(token_start)));
                    } else if c == ' ' || c == '\t' || c == '\n' || c == '\x0C' || c == '\r' {
                        continue ;
                    } else {
                        return Some(
                            Err(
                                LoxParseErr {
                                    kind: ErrKind::InvalidChar,
                                    span: Span { start: token_start, end: self.peek_position() },
                                },
                            ),
                        );
                    }
                },
            }
        }
    }

    /// Consumes characters for as long as `predicate` holds of them.
    fn match_char_while<P: Fn(char) -> bool>(
        &mut self,
        predicate: &P,
        Ghost(pred): Ghost<spec_fn(char) -> bool>,
    )
        requires
            old(self).wf(),
            forall|c: char| predicate.requires((c,)),
            forall|c: char, b: bool| predicate.ensures((c,), b) ==> b == pred(c),
        ensures
            final(self).wf(),
            final(self).text() == old(self).text(),
            final(self).byte_length() == old(self).byte_length(),
            final(self).index() == run_end(old(self).text(), old(self).index(), pred),
            final(self).index() == old(self).index() ==> final(self).position() == old(
                self,
            ).position(),
            final(self).index() != old(self).index() ==> final(self).position()
                == position_after(old(self).text(), final(self).index()),
    {
        let ghost start = self.index();
        loop
            invariant
                self.wf(),
                self.text() == old(self).text(),
                self.byte_length() == old(self).byte_length(),
                start == old(self).index(),
                start <= self.index(),
                run_end(self.text(), self.index(), pred) == run_end(self.text(), start, pred),
                forall|c: char| predicate.requires((c,)),
                forall|c: char, b: bool| predicate.ensures((c,), b) ==> b == pred(c),
                self.index() == start ==> self.position() == old(self).position(),
                self.index() != start ==> self.position() == position_after(
                    self.text(),
                    self.index(),
                ),
            ensures
                self.wf(),
                self.text() == old(self).text(),
                self.byte_length() == old(self).byte_length(),
                self.index() == run_end(self.text(), start, pred),
                self.index() == start ==> self.position() == old(self).position(),
                self.index() != start ==> self.position() == position_after(
                    self.text(),
                    self.index(),
                ),
            decreases self.text().len() - self.index(),
        {
            if !self.match_char_if(predicate, Ghost(pred)) {
                break ;
            }
        }
    }
}

/// Every token and error the tokenizer yields for `source`, in order, as
/// repeated calls of `Tokenizer::next` on a new tokenizer give them.
pub fn tokenize(source: &str) -> (r: Vec<Result<LoxToken, LoxParseErr>>)
    ensures
        vstd::utf8::encode_utf8(source@).len() <= usize::MAX,
        r@ == lex_from(
            char_table(source@),
            vstd::utf8::encode_utf8(source@).len() as usize,
            0,
        ),
{
    let mut stream = Tokenizer::new(source);
    let ghost t = stream.text();
    let ghost bl = stream.byte_length();
    let mut out: Vec<Result<LoxToken, LoxParseErr>> = Vec::new();
    loop
        invariant
            stream.wf(),
            stream.text() == t,
            stream.byte_length() == bl,
            t == char_table(source@),
            bl as nat == vstd::utf8::encode_utf8(source@).len(),
            0 <= stream.index() <= t.len(),
            lex_from(t, bl, 0) == out@ + lex_from(t, bl, stream.index()),
        ensures
            lex_from(t, bl, 0) == out@,
        decreases t.len() - stream.index(),
    {
        let ghost i = stream.index();
        proof {
            lemma_lex_at_advances(t, bl, i);
        }
        match stream.next() {
            None => {
                assert(out@ + lex_from(t, bl, i) =~= out@);
                break ;
            },
            Some(result) => {
                assert(lex_from(t, bl, i) == seq![result] + lex_from(t, bl, stream.index()));
                let ghost before = out@;
                out.push(result);
                assert(before + lex_from(t, bl, i) =~= out@ + lex_from(t, bl, stream.index()));
            },
        }
    }
    out
}

} // verus!
