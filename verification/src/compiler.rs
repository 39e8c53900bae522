use tree_iterators_rs::prelude::{BinaryTreeNode, OwnedBinaryTreeNode};
use vstd::prelude::*;
use crate::chunk::{Chunk, OpCode, opcode_byte, opcode_of_byte};
use crate::fixed_vec::FixedVec;
use crate::object::{Object, rc_str_from};
use crate::source::{char_indices, char_table, lemma_byte_offset_grows, lemma_encoding_length};
use crate::text::string_from_chars;
use crate::tokenizer::{
    LoxParseErr, LoxToken, Position, TokenKind, Tokenizer, token_kind_name, lemma_lex_at_advances,
    lemma_lex_from_strings, lex_from, peek_position_at, quoted_span, start_position,
};
use crate::value::{Value, ValueView};
use crate::vm::STACK_MAX;

verus! {

#[verifier::external_type_specification]
#[verifier::external_body]
#[verifier::reject_recursive_types(T)]
pub struct ExBinaryTreeNode<T>(BinaryTreeNode<T>);

/// The operators of expressions.
#[derive(Clone, Copy, Debug, PartialEq, Eq, Structural)]
pub enum Operator {
    Assignment,
    Or,
    And,
    Equal,
    Not,
    Greater,
    Less,
    Divide,
    Multiply,
    Add,
    Subtract,
    SignFlip,
}

/// A token that stood where the grammar wanted another.
#[derive(Debug)]
pub struct Unexpected {
    pub expected: Vec<TokenKind>,
    pub actual: TokenKind,
    pub location: Position,
}

#[derive(Debug)]
pub enum ExpressionBranch {
    Operator(Operator),
    /// The point between the left and the right operand of `and` or `or`,
    /// where the right operand may be skipped.
    ShortCircuit(Operator),
}

#[derive(Debug)]
pub enum ExpressionLeaf {
    Value(Value),
    Call,
    /// A syntax error.
    Error(Unexpected),
}

/// A node of an expression tree.
#[derive(Debug)]
pub enum ExpressionTreeNode {
    Branch(ExpressionBranch),
    Leaf(ExpressionLeaf),
}

/// An expression tree: a node, and the trees under it on the left and on
/// the right.
#[derive(Debug)]
pub struct ExprTree {
    pub value: ExpressionTreeNode,
    pub left: Option<Box<ExprTree>>,
    pub right: Option<Box<ExprTree>>,
}

/// What an [`ExprTree`] holds.
pub struct TreeView {
    pub value: NodeView,
    pub left: Option<Box<TreeView>>,
    pub right: Option<Box<TreeView>>,
}

/// What an [`Unexpected`] holds.
pub struct UnexpectedView {
    pub expected: Seq<TokenKind>,
    pub actual: TokenKind,
    pub location: Position,
}

/// What an expression-tree node holds.
pub enum NodeView {
    Operator(Operator),
    ShortCircuit(Operator),
    Value(ValueView),
    Call,
    Error(UnexpectedView),
}

impl View for Unexpected {
    type V = UnexpectedView;

    open spec fn view(&self) -> UnexpectedView {
        UnexpectedView { expected: self.expected@, actual: self.actual, location: self.location }
    }
}

impl View for ExpressionTreeNode {
    type V = NodeView;

    open spec fn view(&self) -> NodeView {
        match self {
            ExpressionTreeNode::Branch(ExpressionBranch::Operator(op)) => NodeView::Operator(*op),
            ExpressionTreeNode::Branch(ExpressionBranch::ShortCircuit(op)) => NodeView::ShortCircuit(*op),
            ExpressionTreeNode::Leaf(ExpressionLeaf::Value(v)) => NodeView::Value(v@),
            ExpressionTreeNode::Leaf(ExpressionLeaf::Call) => NodeView::Call,
            ExpressionTreeNode::Leaf(ExpressionLeaf::Error(u)) => NodeView::Error(u@),
        }
    }
}

/// The view of an expression tree.
pub open spec fn view_of(t: ExprTree) -> TreeView
    decreases t,
{
    TreeView {
        value: t.value@,
        left: match t.left {
            Some(b) => Some(Box::new(view_of(*b))),
            None => None,
        },
        right: match t.right {
            Some(b) => Some(Box::new(view_of(*b))),
            None => None,
        },
    }
}

impl View for ExprTree {
    type V = TreeView;

    open spec fn view(&self) -> TreeView {
        view_of(*self)
    }
}

/// The node views of a tree in postorder: the left subtree, the right
/// subtree, then the node.
pub open spec fn postorder(t: TreeView) -> Seq<NodeView>
    decreases t,
{
    (match t.left {
        Some(b) => postorder(*b),
        None => seq![],
    }) + (match t.right {
        Some(b) => postorder(*b),
        None => seq![],
    }) + seq![t.value]
}

/// A tree of one node.
pub open spec fn leaf(v: NodeView) -> TreeView {
    TreeView { value: v, left: None, right: None }
}

/// A node over the given subtrees.
pub open spec fn node(v: NodeView, left: Option<TreeView>, right: Option<TreeView>) -> TreeView {
    TreeView {
        value: v,
        left: match left {
            Some(l) => Some(Box::new(l)),
            None => None,
        },
        right: match right {
            Some(r) => Some(Box::new(r)),
            None => None,
        },
    }
}

/// The nodes of an expression tree in the order a depth-first postorder
/// walk visits them: a node's left subtree, then its right subtree, then
/// the node itself.
pub uninterp spec fn expression_postorder(tree: BinaryTreeNode<ExpressionTreeNode>) -> Seq<
    ExpressionTreeNode,
>;

pub open spec fn optional_postorder(tree: Option<BinaryTreeNode<ExpressionTreeNode>>) -> Seq<
    ExpressionTreeNode,
> {
    match tree {
        None => seq![],
        Some(t) => expression_postorder(t),
    }
}

/// Builds a `tree_iterators_rs::prelude::BinaryTreeNode` from its value and
/// children. The claim, from that crate's postorder iterator (which visits
/// the children of a node, left then right, before the node), is that the
/// postorder walk of the new node is the walk of the left child, then of the
/// right child, then the value.
#[verifier::external_body]
fn tree_node(
    value: ExpressionTreeNode,
    left: Option<BinaryTreeNode<ExpressionTreeNode>>,
    right: Option<BinaryTreeNode<ExpressionTreeNode>>,
) -> (r: BinaryTreeNode<ExpressionTreeNode>)
    ensures
        expression_postorder(r) == optional_postorder(left) + optional_postorder(right) + seq![
            value,
        ],
{
    BinaryTreeNode {
        value,
        left: match left {
            Some(l) => Some(Box::new(l)),
            None => None,
        },
        right: match right {
            Some(r) => Some(Box::new(r)),
            None => None,
        },
    }
}

/// Calls `OwnedBinaryTreeNode::dfs_postorder` of `tree_iterators_rs` and
/// collects what it yields: the nodes in postorder.
#[verifier::external_body]
fn dfs_postorder(tree: BinaryTreeNode<ExpressionTreeNode>) -> (r: Vec<ExpressionTreeNode>)
    ensures
        r@ == expression_postorder(tree),
{
    tree.dfs_postorder().collect()
}

/// The tree as a `tree_iterators_rs` tree, node for node.
fn to_binary(t: ExprTree) -> (r: BinaryTreeNode<ExpressionTreeNode>)
    ensures
        node_views(expression_postorder(r)) == postorder(t@),
    decreases t,
{
    let ghost tv = t@;
    let ExprTree { value, left, right } = t;
    let l = match left {
        Some(b) => Some(to_binary(*b)),
        None => None,
    };
    let r = match right {
        Some(b) => Some(to_binary(*b)),
        None => None,
    };
    let ghost lo = optional_postorder(l);
    let ghost ro = optional_postorder(r);
    let ghost v = value@;
    let tree = tree_node(value, l, r);
    assert(node_views(expression_postorder(tree)) =~= node_views(lo) + node_views(ro) + seq![v]);
    tree
}

/// Where the parser stands: the index of the next token, the token taken
/// before the last one, and the last one taken (`None` once the end was reached).
pub struct ParseState {
    pub pos: nat,
    pub previous: Option<LoxToken>,
    pub current: Option<LoxToken>,
}

/// The number of tokens not yet taken.
pub open spec fn remaining(ts: Seq<LoxToken>, st: ParseState) -> nat {
    if st.pos < ts.len() {
        (ts.len() - st.pos) as nat
    } else {
        0
    }
}

/// Taking the next token: the last token becomes the previous one, the next
/// token (or `None` at the end) becomes the last one.
pub open spec fn advance(ts: Seq<LoxToken>, st: ParseState) -> ParseState {
    if st.pos < ts.len() {
        ParseState { pos: st.pos + 1, previous: st.current, current: Some(ts[st.pos as int]) }
    } else {
        ParseState { pos: st.pos, previous: st.current, current: None }
    }
}

/// The next token is there and is of kind `kind`.
pub open spec fn next_is(ts: Seq<LoxToken>, st: ParseState, kind: TokenKind) -> bool {
    st.pos < ts.len() && ts[st.pos as int].kind == kind
}

/// The kind of the next token, or `EOF`.
pub open spec fn next_kind(ts: Seq<LoxToken>, st: ParseState) -> TokenKind {
    if st.pos < ts.len() {
        ts[st.pos as int].kind
    } else {
        TokenKind::EOF
    }
}

/// The start of a token, or the start of the text for no token.
pub open spec fn location_of(token: Option<LoxToken>) -> Position {
    match token {
        None => start_position(),
        Some(t) => t.span.start,
    }
}

/// The token kinds a literal may have.
pub open spec fn literal_kinds() -> Seq<TokenKind> {
    seq![TokenKind::True, TokenKind::False, TokenKind::Number, TokenKind::String, TokenKind::Nil]
}

pub open spec fn error_node(expected: Seq<TokenKind>, actual: TokenKind, location: Position) -> NodeView {
    NodeView::Error(UnexpectedView { expected, actual, location })
}

/// The characters of the text whose byte offsets lie in `[start, end)`.
pub open spec fn chars_between(text: Seq<(usize, char)>, start: int, end: int) -> Seq<char>
    decreases text.len(),
{
    if text.len() == 0 {
        seq![]
    } else {
        let rest = chars_between(text.drop_last(), start, end);
        if start <= text.last().0 < end {
            rest.push(text.last().1)
        } else {
            rest
        }
    }
}

/// The text of a token.
pub open spec fn lexeme(text: Seq<(usize, char)>, token: LoxToken) -> Seq<char> {
    chars_between(text, token.span.start.byte as int, token.span.end.byte as int)
}

/// A string literal without its two quotes.
pub open spec fn string_body(lex: Seq<char>) -> Seq<char> {
    lex.subrange(1, lex.len() - 1)
}

/// The operators, in postorder, that a binary operator token of the given
/// precedence level stands for; empty when the token is no operator of that
/// level. Level 0 is `or`, then `and`, equality, comparison, terms and
/// factors. `!=`, `>=` and `<=` are the negations of `==`, `<` and `>`.
pub open spec fn binary_operators(level: nat, kind: TokenKind) -> Seq<Operator> {
    if level == 0 && kind == TokenKind::Or {
        seq![Operator::Or]
    } else if level == 1 && kind == TokenKind::And {
        seq![Operator::And]
    } else if level == 2 && kind == TokenKind::EqualEqual {
        seq![Operator::Equal]
    } else if level == 2 && kind == TokenKind::BangEqual {
        seq![Operator::Equal, Operator::Not]
    } else if level == 3 && kind == TokenKind::Greater {
        seq![Operator::Greater]
    } else if level == 3 && kind == TokenKind::GreaterEqual {
        seq![Operator::Less, Operator::Not]
    } else if level == 3 && kind == TokenKind::Less {
        seq![Operator::Less]
    } else if level == 3 && kind == TokenKind::LessEqual {
        seq![Operator::Greater, Operator::Not]
    } else if level == 4 && kind == TokenKind::Minus {
        seq![Operator::Subtract]
    } else if level == 4 && kind == TokenKind::Plus {
        seq![Operator::Add]
    } else if level == 5 && kind == TokenKind::Star {
        seq![Operator::Multiply]
    } else if level == 5 && kind == TokenKind::Slash {
        seq![Operator::Divide]
    } else {
        seq![]
    }
}

pub open spec fn expr_rank(level: nat) -> nat {
    if level <= 7 {
        (17 - 2 * level) as nat
    } else {
        0
    }
}

pub open spec fn loop_rank(level: nat) -> nat {
    if level <= 7 {
        (16 - 2 * level) as nat
    } else {
        0
    }
}

/// The expression the parser reads at precedence `level` (0 to 7: `or`,
/// `and`, equality, comparison, term, factor, unary, primary) from state
/// `st`: its tree, and the state afterwards. Binary operators associate to
/// the left, with the left operand on the left and the right one on the
/// right; a unary operator has its operand on the right; a syntax error
/// becomes an error leaf.
pub open spec fn parse_expr(ts: Seq<LoxToken>, text: Seq<(usize, char)>, st: ParseState, level: nat) -> (
    TreeView,
    ParseState,
)
    decreases remaining(ts, st), expr_rank(level),
{
    if level > 7 {
        (leaf(NodeView::Call), st)
    } else if level == 7 {
        let st1 = advance(ts, st);
        if st.pos >= ts.len() {
            (leaf(error_node(literal_kinds(), TokenKind::EOF, location_of(st1.previous))), st1)
        } else {
            let tok = ts[st.pos as int];
            if tok.kind == TokenKind::True {
                (leaf(NodeView::Value(ValueView::Boolean(true))), st1)
            } else if tok.kind == TokenKind::False {
                (leaf(NodeView::Value(ValueView::Boolean(false))), st1)
            } else if tok.kind == TokenKind::Number {
                (leaf(NodeView::Value(ValueView::Number(lexeme(text, tok)))), st1)
            } else if tok.kind == TokenKind::String {
                (leaf(NodeView::Value(ValueView::Object(string_body(lexeme(text, tok))))), st1)
            } else if tok.kind == TokenKind::Nil {
                (leaf(NodeView::Value(ValueView::Nil)), st1)
            } else if tok.kind == TokenKind::LeftParen {
                let (inner, st2) = parse_expr(ts, text, st1, 0);
                if next_is(ts, st2, TokenKind::RightParen) {
                    (inner, advance(ts, st2))
                } else {
                    (
                        leaf(
                            error_node(
                                seq![TokenKind::RightParen],
                                next_kind(ts, st2),
                                location_of(st2.previous),
                            ),
                        ),
                        st2,
                    )
                }
            } else {
                (leaf(error_node(literal_kinds(), tok.kind, location_of(st1.previous))), st1)
            }
        }
    } else if level == 6 {
        if next_is(ts, st, TokenKind::Bang) {
            let (operand, st2) = parse_expr(ts, text, advance(ts, st), 6);
            (node(NodeView::Operator(Operator::Not), None, Some(operand)), st2)
        } else if next_is(ts, st, TokenKind::Minus) {
            let (operand, st2) = parse_expr(ts, text, advance(ts, st), 6);
            (node(NodeView::Operator(Operator::SignFlip), None, Some(operand)), st2)
        } else {
            parse_expr(ts, text, st, 7)
        }
    } else {
        let (left, st1) = parse_expr(ts, text, st, level + 1);
        if remaining(ts, st1) <= remaining(ts, st) {
            parse_loop(ts, text, st1, level, left)
        } else {
            (left, st1)
        }
    }
}

/// The tree for `acc op right`, where `ops` are the operators a token stands
/// for: the first one over the two operands, under a `!` where there is a
/// second. For `or` and `and` (levels 0 and 1) the left operand sits under
/// the point where the right operand may be skipped.
pub open spec fn combine(level: nat, ops: Seq<Operator>, acc: TreeView, right: TreeView) -> TreeView {
    let left = if level <= 1 {
        node(NodeView::ShortCircuit(ops[0]), Some(acc), None)
    } else {
        acc
    };
    let main = node(NodeView::Operator(ops[0]), Some(left), Some(right));
    if ops.len() == 2 {
        node(NodeView::Operator(ops[1]), None, Some(main))
    } else {
        main
    }
}

/// The rest of a left-associative chain at `level`, whose tree so far is `acc`.
pub open spec fn parse_loop(
    ts: Seq<LoxToken>,
    text: Seq<(usize, char)>,
    st: ParseState,
    level: nat,
    acc: TreeView,
) -> (TreeView, ParseState)
    decreases remaining(ts, st), loop_rank(level),
{
    if level <= 5 && st.pos < ts.len() && binary_operators(level, ts[st.pos as int].kind).len() > 0 {
        let ops = binary_operators(level, ts[st.pos as int].kind);
        let st1 = advance(ts, st);
        let (right, st2) = parse_expr(ts, text, st1, level + 1);
        let combined = combine(level, ops, acc, right);
        if remaining(ts, st2) <= remaining(ts, st1) {
            parse_loop(ts, text, st2, level, combined)
        } else {
            (combined, st2)
        }
    } else {
        (acc, st)
    }
}

/// What each binary operator builds over its operands `a` and `b`:
/// `a == b` is `Equal(a, b)` and `a != b` is `!(a == b)`; `a > b` and
/// `a < b` are `Greater(a, b)` and `Less(a, b)`, `a >= b` is `!(a < b)` and
/// `a <= b` is `!(a > b)`; `-`, `+`, `*` and `/` are `Subtract`, `Add`,
/// `Multiply` and `Divide` of `a` and `b`, in that order. `a and b` and
/// `a or b` put the point where `b` may be skipped over `a`.
pub proof fn lemma_operator_trees(a: TreeView, b: TreeView)
    ensures
        combine(2, binary_operators(2, TokenKind::EqualEqual), a, b) == node(NodeView::Operator(Operator::Equal), Some(a), Some(b)),
        combine(2, binary_operators(2, TokenKind::BangEqual), a, b) == node(NodeView::Operator(Operator::Not), None, Some(node(NodeView::Operator(Operator::Equal), Some(a), Some(b)))),
        combine(3, binary_operators(3, TokenKind::Greater), a, b) == node(NodeView::Operator(Operator::Greater), Some(a), Some(b)),
        combine(3, binary_operators(3, TokenKind::GreaterEqual), a, b) == node(NodeView::Operator(Operator::Not), None, Some(node(NodeView::Operator(Operator::Less), Some(a), Some(b)))),
        combine(3, binary_operators(3, TokenKind::Less), a, b) == node(NodeView::Operator(Operator::Less), Some(a), Some(b)),
        combine(3, binary_operators(3, TokenKind::LessEqual), a, b) == node(NodeView::Operator(Operator::Not), None, Some(node(NodeView::Operator(Operator::Greater), Some(a), Some(b)))),
        combine(4, binary_operators(4, TokenKind::Minus), a, b) == node(NodeView::Operator(Operator::Subtract), Some(a), Some(b)),
        combine(4, binary_operators(4, TokenKind::Plus), a, b) == node(NodeView::Operator(Operator::Add), Some(a), Some(b)),
        combine(5, binary_operators(5, TokenKind::Star), a, b) == node(NodeView::Operator(Operator::Multiply), Some(a), Some(b)),
        combine(5, binary_operators(5, TokenKind::Slash), a, b) == node(NodeView::Operator(Operator::Divide), Some(a), Some(b)),
        combine(1, binary_operators(1, TokenKind::And), a, b) == node(
            NodeView::Operator(Operator::And),
            Some(node(NodeView::ShortCircuit(Operator::And), Some(a), None)),
            Some(b),
        ),
        combine(0, binary_operators(0, TokenKind::Or), a, b) == node(
            NodeView::Operator(Operator::Or),
            Some(node(NodeView::ShortCircuit(Operator::Or), Some(a), None)),
            Some(b),
        ),
{
}

/// Each binary operator token is an operator at exactly one precedence
/// level: `or` at 0, `and` at 1, `==` and `!=` at 2, `>`, `>=`, `<`, `<=` at
/// 3, `-` and `+` at 4, `*` and `/` at 5.
pub proof fn lemma_operator_levels(level: nat, kind: TokenKind)
    requires
        level <= 5,
    ensures
        binary_operators(level, kind).len() > 0 <==> (level == 0 && kind == TokenKind::Or) || (
        level == 1 && kind == TokenKind::And) || (level == 2 && (kind == TokenKind::EqualEqual
            || kind == TokenKind::BangEqual)) || (level == 3 && (kind == TokenKind::Greater || kind
            == TokenKind::GreaterEqual || kind == TokenKind::Less || kind == TokenKind::LessEqual))
            || (level == 4 && (kind == TokenKind::Minus || kind == TokenKind::Plus)) || (level == 5
            && (kind == TokenKind::Star || kind == TokenKind::Slash)),
{
}

/// A unary expression: `!e` is `Not` and `-e` is a sign flip, each with its
/// operand `e`, read at the unary level, on the right.
pub proof fn lemma_unary_trees(ts: Seq<LoxToken>, text: Seq<(usize, char)>, st: ParseState)
    ensures
        next_is(ts, st, TokenKind::Bang) ==> parse_expr(ts, text, st, 6).0 == node(
            NodeView::Operator(Operator::Not),
            None,
            Some(parse_expr(ts, text, advance(ts, st), 6).0),
        ),
        next_is(ts, st, TokenKind::Minus) ==> parse_expr(ts, text, st, 6).0 == node(
            NodeView::Operator(Operator::SignFlip),
            None,
            Some(parse_expr(ts, text, advance(ts, st), 6).0),
        ),
{
}

/// The parser never moves backwards, and reading an expression where tokens
/// remain takes at least one of them.
pub proof fn lemma_parse_moves(ts: Seq<LoxToken>, text: Seq<(usize, char)>, st: ParseState, level: nat)
    ensures
        parse_expr(ts, text, st, level).1.pos >= st.pos,
        remaining(ts, parse_expr(ts, text, st, level).1) <= remaining(ts, st),
        level <= 7 && st.pos < ts.len() ==> remaining(ts, parse_expr(ts, text, st, level).1)
            < remaining(ts, st),
    decreases remaining(ts, st), expr_rank(level),
{
    if level > 7 {
    } else if level == 7 {
        if st.pos < ts.len() && ts[st.pos as int].kind == TokenKind::LeftParen {
            let st1 = advance(ts, st);
            lemma_parse_moves(ts, text, st1, 0);
        }
    } else if level == 6 {
        if next_is(ts, st, TokenKind::Bang) || next_is(ts, st, TokenKind::Minus) {
            lemma_parse_moves(ts, text, advance(ts, st), 6);
        } else {
            lemma_parse_moves(ts, text, st, 7);
        }
    } else {
        lemma_parse_moves(ts, text, st, level + 1);
        let (left, st1) = parse_expr(ts, text, st, level + 1);
        lemma_parse_loop_moves(ts, text, st1, level, left);
    }
}

pub proof fn lemma_parse_loop_moves(
    ts: Seq<LoxToken>,
    text: Seq<(usize, char)>,
    st: ParseState,
    level: nat,
    acc: TreeView,
)
    ensures
        parse_loop(ts, text, st, level, acc).1.pos >= st.pos,
        remaining(ts, parse_loop(ts, text, st, level, acc).1) <= remaining(ts, st),
    decreases remaining(ts, st), loop_rank(level),
{
    if level <= 5 && st.pos < ts.len() && binary_operators(level, ts[st.pos as int].kind).len() > 0 {
        let ops = binary_operators(level, ts[st.pos as int].kind);
        let st1 = advance(ts, st);
        lemma_parse_moves(ts, text, st1, level + 1);
        let (right, st2) = parse_expr(ts, text, st1, level + 1);
        lemma_parse_loop_moves(ts, text, st2, level, combine(level, ops, acc, right));
    }
}

/// The single instruction an operator compiles to. `and` and `or` compile
/// to jumps instead (see `emit_step`); assignment is not compiled yet.
pub open spec fn operator_opcode(op: Operator) -> Option<OpCode> {
    match op {
        Operator::Assignment => None,
        Operator::And => None,
        Operator::Or => None,
        Operator::Equal => Some(OpCode::Equal),
        Operator::Not => Some(OpCode::Not),
        Operator::Greater => Some(OpCode::Greater),
        Operator::Less => Some(OpCode::Less),
        Operator::Divide => Some(OpCode::Divide),
        Operator::Multiply => Some(OpCode::Multiply),
        Operator::Add => Some(OpCode::Add),
        Operator::Subtract => Some(OpCode::Subtract),
        Operator::SignFlip => Some(OpCode::Negate),
    }
}

/// The text of each operator.
pub open spec fn operator_text(op: Operator) -> Seq<char> {
    match op {
        Operator::Assignment => "="@,
        Operator::Or => "||"@,
        Operator::And => "&&"@,
        Operator::Equal => "=="@,
        Operator::Not => " !"@,
        Operator::Greater => " >"@,
        Operator::Less => " <"@,
        Operator::Divide => " /"@,
        Operator::Multiply => " *"@,
        Operator::Add => " +"@,
        Operator::Subtract => " -"@,
        Operator::SignFlip => " -"@,
    }
}

/// The output of the compiler: code, constants, errors.
pub struct Output {
    pub chunks: Seq<Chunk>,
    pub values: Seq<ValueView>,
    pub errs: Seq<CompileErrView>,
}

/// The output after compiling one expression node at a source position
/// `loc`; `None` where the compiler has no translation for the node yet.
/// A constant beyond the last slot of the constant table is reported and
/// left out, its instruction without an operand.
pub open spec fn emit_node(out: Output, node: NodeView, loc: Position) -> Option<(Output, bool)> {
    match node {
        NodeView::Operator(op) => match operator_opcode(op) {
            None => None,
            Some(code) => Some(
                (
                    Output {
                        chunks: out.chunks.push(Chunk { line: loc.line, op: opcode_byte(code) }),
                        ..out
                    },
                    false,
                ),
            ),
        },
        NodeView::Value(v) => {
            let chunks = out.chunks.push(
                Chunk { line: loc.line, op: opcode_byte(OpCode::Constant) },
            );
            if out.values.len() == STACK_MAX {
                Some(
                    (
                        Output {
                            chunks,
                            values: out.values,
                            errs: out.errs.push(
                                CompileErrView {
                                    kind: CompileErrKindView::TooManyValues,
                                    location: loc,
                                },
                            ),
                        },
                        false,
                    ),
                )
            } else {
                Some(
                    (
                        Output {
                            chunks: chunks.push(
                                Chunk { line: loc.line, op: out.values.len() as u8 },
                            ),
                            values: out.values.push(v),
                            errs: out.errs,
                        },
                        false,
                    ),
                )
            }
        },
        NodeView::Call => None,
        NodeView::ShortCircuit(_) => None,
        NodeView::Error(u) => Some(
            (
                Output {
                    errs: out.errs.push(
                        CompileErrView {
                            kind: CompileErrKindView::UnexpectedToken(u),
                            location: loc,
                        },
                    ),
                    ..out
                },
                true,
            ),
        ),
    }
}

/// The largest distance a jump can cover: its two operand bytes.
pub const MAX_JUMP: usize = 65535;

/// The code that starts the short cut of `and` (`is_or` false) or `or`.
/// `and`: if the left operand is false, jump past the right one, leaving
/// `false`; else pop it. `or`: if the left operand is false, hop over the
/// jump that follows; else jump past the right one, leaving `true`. The
/// distance of the jump to be filled in is left zero.
pub open spec fn short_circuit_code(line: usize, is_or: bool) -> Seq<Chunk> {
    if is_or {
        seq![
            Chunk { line, op: opcode_byte(OpCode::JumpIfFalse) },
            Chunk { line, op: 0 },
            Chunk { line, op: 3 },
            Chunk { line, op: opcode_byte(OpCode::Jump) },
            Chunk { line, op: 0 },
            Chunk { line, op: 0 },
            Chunk { line, op: opcode_byte(OpCode::Pop) },
        ]
    } else {
        seq![
            Chunk { line, op: opcode_byte(OpCode::JumpIfFalse) },
            Chunk { line, op: 0 },
            Chunk { line, op: 0 },
            Chunk { line, op: opcode_byte(OpCode::Pop) },
        ]
    }
}

/// The code that checks that the right operand of `and` or `or` is a
/// boolean: a conditional jump of distance zero, which fails on any other
/// value and else goes on.
pub open spec fn boolean_check_code(line: usize) -> Seq<Chunk> {
    seq![
        Chunk { line, op: opcode_byte(OpCode::JumpIfFalse) },
        Chunk { line, op: 0 },
        Chunk { line, op: 0 },
    ]
}

/// The index, within `short_circuit_code`, of the first operand byte of the
/// jump to be filled in.
pub open spec fn open_jump_operand(is_or: bool) -> int {
    if is_or {
        4
    } else {
        1
    }
}

/// The code with the jump whose operand bytes start at `p` made to cover
/// `d` bytes, high byte first.
pub open spec fn patch_jump(code: Seq<Chunk>, p: int, d: int) -> Seq<Chunk> {
    code.update(p, Chunk { line: code[p].line, op: (d / 256) as u8 }).update(
        p + 1,
        Chunk { line: code[p + 1].line, op: (d % 256) as u8 },
    )
}

/// Compiling one node, where `pending` holds, innermost last, the operand
/// positions of the jumps of `and` and `or` whose right operand is being
/// compiled. The short-cut point of `and` or `or` emits its code and opens a
/// jump; the operator itself emits the check that the right operand is a
/// boolean, then fills that jump in to land just after it, or reports that
/// the right operand is too long to jump over.
/// `None` where the compiler has no translation for the node.
pub open spec fn emit_step(out: Output, pending: Seq<int>, node: NodeView, loc: Position) -> Option<
    (Output, Seq<int>, bool),
> {
    match node {
        NodeView::ShortCircuit(op) => if op == Operator::And || op == Operator::Or {
            let is_or = op == Operator::Or;
            Some(
                (
                    Output { chunks: out.chunks + short_circuit_code(loc.line, is_or), ..out },
                    pending.push(out.chunks.len() + open_jump_operand(is_or)),
                    false,
                ),
            )
        } else {
            None
        },
        NodeView::Operator(op) => if op == Operator::And || op == Operator::Or {
            if pending.len() == 0 {
                None
            } else {
                let chunks = out.chunks + boolean_check_code(loc.line);
                let p = pending.last();
                let d = chunks.len() - (p + 2);
                if d > MAX_JUMP {
                    Some(
                        (
                            Output {
                                chunks,
                                errs: out.errs.push(
                                    CompileErrView {
                                        kind: CompileErrKindView::TooMuchCodeToJump,
                                        location: loc,
                                    },
                                ),
                                ..out
                            },
                            pending.drop_last(),
                            false,
                        ),
                    )
                } else {
                    Some(
                        (
                            Output { chunks: patch_jump(chunks, p, d), ..out },
                            pending.drop_last(),
                            false,
                        ),
                    )
                }
            }
        } else {
            match emit_node(out, node, loc) {
                None => None,
                Some((out1, e)) => Some((out1, pending, e)),
            }
        },
        _ => match emit_node(out, node, loc) {
            None => None,
            Some((out1, e)) => Some((out1, pending, e)),
        },
    }
}

/// The output after compiling the nodes in order, the jumps still open, and
/// whether a syntax error was among the nodes.
pub open spec fn emit_nodes(nodes: Seq<NodeView>, out: Output, pending: Seq<int>, loc: Position) -> Option<
    (Output, Seq<int>, bool),
>
    decreases nodes.len(),
{
    if nodes.len() == 0 {
        Some((out, pending, false))
    } else {
        match emit_step(out, pending, nodes[0], loc) {
            None => None,
            Some((out1, pending1, err1)) => match emit_nodes(nodes.drop_first(), out1, pending1, loc) {
                None => None,
                Some((out2, pending2, err2)) => Some((out2, pending2, err1 || err2)),
            },
        }
    }
}

/// The whole state of a compiler: where its parser stands and what it has
/// produced.
pub struct CompileState {
    pub parse: ParseState,
    pub out: Output,
}

pub open spec fn with_parse(cs: CompileState, parse: ParseState) -> CompileState {
    CompileState { parse, out: cs.out }
}

pub open spec fn push_chunk(cs: CompileState, op: u8) -> CompileState {
    CompileState {
        parse: cs.parse,
        out: Output {
            chunks: cs.out.chunks.push(Chunk { line: location_of(cs.parse.previous).line, op }),
            ..cs.out
        },
    }
}

pub open spec fn push_error(cs: CompileState, kind: CompileErrKindView) -> CompileState {
    CompileState {
        parse: cs.parse,
        out: Output {
            errs: cs.out.errs.push(
                CompileErrView { kind, location: location_of(cs.parse.previous) },
            ),
            ..cs.out
        },
    }
}

/// An expression statement without its semicolon: the expression is parsed,
/// then compiled node by node in postorder at the line of the last token
/// taken. `Some((true, _))` when it held no syntax error; `None` where the
/// compiler has no translation yet.
pub open spec fn expression_statement_spec(
    ts: Seq<LoxToken>,
    text: Seq<(usize, char)>,
    cs: CompileState,
) -> Option<(bool, CompileState)> {
    let (tree, ps) = parse_expr(ts, text, cs.parse, 0);
    match emit_nodes(postorder(tree), cs.out, seq![], location_of(ps.previous)) {
        None => None,
        Some((out, _, had_err)) => Some((!had_err, CompileState { parse: ps, out })),
    }
}

/// A statement: `print expression;` or `expression;`. The keywords that
/// start a class, a function or an `if` are not compiled yet (`None`).
pub open spec fn statement_spec(ts: Seq<LoxToken>, text: Seq<(usize, char)>, cs: CompileState) -> Option<
    (bool, CompileState),
> {
    if next_is(ts, cs.parse, TokenKind::Class) || next_is(ts, cs.parse, TokenKind::Fun) {
        None
    } else if next_is(ts, cs.parse, TokenKind::Print) {
        match expression_statement_spec(ts, text, with_parse(cs, advance(ts, cs.parse))) {
            None => None,
            Some((false, cs1)) => Some((false, cs1)),
            Some((true, cs1)) => {
                let cs2 = push_chunk(cs1, opcode_byte(OpCode::Print));
                if next_is(ts, cs2.parse, TokenKind::Semicolon) {
                    Some((true, with_parse(cs2, advance(ts, cs2.parse))))
                } else {
                    Some((false, push_error(cs2, CompileErrKindView::MissingSemicolon)))
                }
            },
        }
    } else if next_is(ts, cs.parse, TokenKind::If) {
        None
    } else {
        match expression_statement_spec(ts, text, cs) {
            None => None,
            Some((false, cs1)) => Some((false, cs1)),
            Some((true, cs1)) => {
                if next_is(ts, cs1.parse, TokenKind::Semicolon) {
                    let cs2 = with_parse(cs1, advance(ts, cs1.parse));
                    Some((true, push_chunk(cs2, opcode_byte(OpCode::Pop))))
                } else {
                    Some((false, push_error(cs1, CompileErrKindView::MissingSemicolon)))
                }
            },
        }
    }
}

pub proof fn lemma_statement_moves(ts: Seq<LoxToken>, text: Seq<(usize, char)>, cs: CompileState)
    requires
        cs.parse.pos < ts.len(),
    ensures
        statement_spec(ts, text, cs) matches Some((_, cs1)) ==> remaining(ts, cs1.parse)
            < remaining(ts, cs.parse),
{
    if next_is(ts, cs.parse, TokenKind::Print) {
        lemma_parse_moves(ts, text, advance(ts, cs.parse), 0);
    } else {
        lemma_parse_moves(ts, text, cs.parse, 0);
        let (_, ps) = parse_expr(ts, text, cs.parse, 0);
        if next_is(ts, ps, TokenKind::Semicolon) {
        }
    }
}

/// Statements one after another up to the end of the tokens or the first
/// statement that fails.
pub open spec fn declaration_spec(ts: Seq<LoxToken>, text: Seq<(usize, char)>, cs: CompileState) -> Option<
    (bool, CompileState),
>
    decreases remaining(ts, cs.parse),
{
    if cs.parse.pos >= ts.len() {
        Some((true, cs))
    } else {
        match statement_spec(ts, text, cs) {
            None => None,
            Some((false, cs1)) => Some((false, cs1)),
            Some((true, cs1)) => if remaining(ts, cs1.parse) < remaining(ts, cs.parse) {
                declaration_spec(ts, text, cs1)
            } else {
                Some((true, cs1))
            },
        }
    }
}

pub proof fn lemma_declaration_moves(ts: Seq<LoxToken>, text: Seq<(usize, char)>, cs: CompileState)
    requires
        cs.parse.pos < ts.len(),
    ensures
        declaration_spec(ts, text, cs) matches Some((_, cs1)) ==> remaining(ts, cs1.parse)
            < remaining(ts, cs.parse),
    decreases remaining(ts, cs.parse),
{
    lemma_statement_moves(ts, text, cs);
    if let Some((true, cs1)) = statement_spec(ts, text, cs) {
        if cs1.parse.pos < ts.len() {
            lemma_declaration_moves(ts, text, cs1);
        }
    }
}

/// The token kinds that start a statement.
pub open spec fn starts_statement(kind: TokenKind) -> bool {
    kind == TokenKind::Class || kind == TokenKind::Fun || kind == TokenKind::Var || kind
        == TokenKind::For || kind == TokenKind::If || kind == TokenKind::Print || kind
        == TokenKind::Return
}

/// The state after taking tokens for as long as `pred` holds of the next one.
pub open spec fn skip_tokens(ts: Seq<LoxToken>, st: ParseState, pred: spec_fn(LoxToken) -> bool) -> ParseState
    decreases remaining(ts, st),
{
    if st.pos < ts.len() && pred(ts[st.pos as int]) {
        skip_tokens(ts, advance(ts, st), pred)
    } else {
        st
    }
}

pub open spec fn not_statement_start() -> spec_fn(LoxToken) -> bool {
    |t: LoxToken| !starts_statement(t.kind)
}

/// After a failed statement, the parser skips to the next token that starts
/// a statement.
pub open spec fn recover(ts: Seq<LoxToken>, st: ParseState) -> ParseState {
    skip_tokens(ts, st, not_statement_start())
}

pub proof fn lemma_skip_tokens_moves(ts: Seq<LoxToken>, st: ParseState, pred: spec_fn(LoxToken) -> bool)
    ensures
        remaining(ts, skip_tokens(ts, st, pred)) <= remaining(ts, st),
    decreases remaining(ts, st),
{
    if st.pos < ts.len() && pred(ts[st.pos as int]) {
        lemma_skip_tokens_moves(ts, advance(ts, st), pred);
    }
}

/// Declarations until the end of the tokens, each failure followed by a
/// recovery; `None` where the compiler has no translation yet.
pub open spec fn compile_loop(ts: Seq<LoxToken>, text: Seq<(usize, char)>, cs: CompileState) -> Option<
    CompileState,
>
    decreases remaining(ts, cs.parse),
{
    if cs.parse.pos >= ts.len() {
        Some(cs)
    } else {
        match declaration_spec(ts, text, cs) {
            None => None,
            Some((ok, cs1)) => {
                let cs2 = if ok {
                    cs1
                } else {
                    with_parse(cs1, recover(ts, cs1.parse))
                };
                if remaining(ts, cs2.parse) < remaining(ts, cs.parse) {
                    compile_loop(ts, text, cs2)
                } else {
                    Some(cs2)
                }
            },
        }
    }
}

/// A fresh compiler: at the first token, with nothing produced.
pub open spec fn initial_state() -> CompileState {
    CompileState {
        parse: ParseState { pos: 0, previous: None, current: None },
        out: Output { chunks: seq![], values: seq![], errs: seq![] },
    }
}

/// What compiling the tokens gives: the code, ended by a `Return`, and the
/// constants; or every error reported; `None` where the compiler has no
/// translation yet.
pub open spec fn compile_tokens(ts: Seq<LoxToken>, text: Seq<(usize, char)>) -> Option<
    Result<(Seq<Chunk>, Seq<ValueView>), Seq<CompileErrView>>,
> {
    compile_from(ts, text, initial_state())
}

/// What compiling the rest of the tokens from state `cs` gives.
pub open spec fn compile_from(ts: Seq<LoxToken>, text: Seq<(usize, char)>, cs: CompileState) -> Option<
    Result<(Seq<Chunk>, Seq<ValueView>), Seq<CompileErrView>>,
> {
    match compile_loop(ts, text, cs) {
        None => None,
        Some(cs) => {
            let cs1 = push_chunk(cs, opcode_byte(OpCode::Return));
            if cs1.out.errs.len() > 0 {
                Some(Err(cs1.out.errs))
            } else {
                Some(Ok((cs1.out.chunks, cs1.out.values)))
            }
        },
    }
}

/// The tokens among the tokenizer's results, in order.
pub open spec fn ok_tokens(rs: Seq<Result<LoxToken, LoxParseErr>>) -> Seq<LoxToken>
    decreases rs.len(),
{
    if rs.len() == 0 {
        seq![]
    } else {
        let rest = ok_tokens(rs.drop_last());
        match rs.last() {
            Ok(t) => rest.push(t),
            Err(_) => rest,
        }
    }
}

/// The errors among the tokenizer's results, in order.
pub open spec fn parse_errors(rs: Seq<Result<LoxToken, LoxParseErr>>) -> Seq<LoxParseErr>
    decreases rs.len(),
{
    if rs.len() == 0 {
        seq![]
    } else {
        let rest = parse_errors(rs.drop_last());
        match rs.last() {
            Ok(_) => rest,
            Err(e) => rest.push(e),
        }
    }
}

/// A tokenizer error as a compile error at its start.
pub open spec fn parse_error_view(e: LoxParseErr) -> CompileErrView {
    CompileErrView { kind: CompileErrKindView::Parse(e), location: e.span.start }
}

/// What compiling a source text gives. When the tokenizer reports errors the
/// result is an error list that leaves out the first of them; otherwise it
/// is what compiling the tokens gives. `None` where the compiler has no
/// translation yet.
pub open spec fn compile_source(source: Seq<char>) -> Option<
    Result<(Seq<Chunk>, Seq<ValueView>), Seq<CompileErrView>>,
> {
    let text = char_table(source);
    let rs = source_results(source);
    let errs = parse_errors(rs);
    if errs.len() > 0 {
        Some(Err(errs.drop_first().map_values(|e: LoxParseErr| parse_error_view(e))))
    } else {
        compile_tokens(ok_tokens(rs), text)
    }
}

pub proof fn lemma_ok_tokens_come_from(rs: Seq<Result<LoxToken, LoxParseErr>>)
    ensures
        forall|k: int|
            0 <= k < ok_tokens(rs).len() ==> exists|m: int|
                0 <= m < rs.len() && rs[m] == Ok::<LoxToken, LoxParseErr>(
                    #[trigger] ok_tokens(rs)[k],
                ),
    decreases rs.len(),
{
    if rs.len() > 0 {
        lemma_ok_tokens_come_from(rs.drop_last());
        let rest = ok_tokens(rs.drop_last());
        assert forall|k: int| 0 <= k < ok_tokens(rs).len() implies exists|m: int|
            0 <= m < rs.len() && rs[m] == Ok::<LoxToken, LoxParseErr>(
                #[trigger] ok_tokens(rs)[k],
            ) by {
            if k < rest.len() {
                let m = choose|m: int|
                    0 <= m < rs.drop_last().len() && rs.drop_last()[m] == Ok::<
                        LoxToken,
                        LoxParseErr,
                    >(#[trigger] rest[k]);
                assert(rs[m] == rs.drop_last()[m]);
            } else {
                assert(rs[rs.len() - 1] == Ok::<LoxToken, LoxParseErr>(ok_tokens(rs)[k]));
            }
        }
    }
}

pub proof fn lemma_one_in_range(t: Seq<(usize, char)>, a: int, b: int, k: int)
    requires
        0 <= k < t.len(),
        a <= t[k].0 < b,
    ensures
        chars_between(t, a, b).len() >= 1,
    decreases t.len(),
{
    if k < t.len() - 1 {
        lemma_one_in_range(t.drop_last(), a, b, k);
    }
}

pub proof fn lemma_two_in_range(t: Seq<(usize, char)>, a: int, b: int, k1: int, k2: int)
    requires
        0 <= k1 < k2 < t.len(),
        a <= t[k1].0 < b,
        a <= t[k2].0 < b,
    ensures
        chars_between(t, a, b).len() >= 2,
    decreases t.len(),
{
    if k2 < t.len() - 1 {
        lemma_two_in_range(t.drop_last(), a, b, k1, k2);
    } else {
        lemma_one_in_range(t.drop_last(), a, b, k1);
    }
}

/// A token spanning two quotes of a source text has a text of at least two
/// characters.
pub proof fn lemma_quoted_lexeme(source: Seq<char>, byte_len: usize, tok: LoxToken)
    requires
        byte_len as nat == vstd::utf8::encode_utf8(source).len(),
        quoted_span(char_table(source), byte_len, tok),
    ensures
        lexeme(char_table(source), tok).len() >= 2,
{
    let t = char_table(source);
    let (a, q) = choose|a: int, q: int|
        #![trigger t[a], t[q]]
        0 <= a < q < t.len() && t[a].1 == '"' && t[q].1 == '"' && tok.span.start.byte == t[a].0
            && tok.span.end.byte == peek_position_at(t, byte_len, q + 1).byte;
    lemma_encoding_length(source);
    lemma_byte_offset_grows(source, a, q);
    lemma_byte_offset_grows(source, q, source.len() as int);
    if q + 1 < t.len() {
        lemma_byte_offset_grows(source, q + 1, source.len() as int);
        lemma_byte_offset_grows(source, q, q + 1);
    }
    lemma_two_in_range(t, tok.span.start.byte as int, tok.span.end.byte as int, a, q);
}

/// The byte encodes a jump, which is followed by two operand bytes.
pub open spec fn is_jump_byte(b: u8) -> bool {
    opcode_of_byte(b) == Some(OpCode::Jump) || opcode_of_byte(b) == Some(OpCode::JumpIfFalse)
}

/// The number of bytes the instruction at `i` takes with its operands.
pub open spec fn walk_size(code: Seq<Chunk>, i: int) -> int {
    if opcode_of_byte(code[i].op) == Some(OpCode::Constant) {
        2
    } else if is_jump_byte(code[i].op) {
        3
    } else {
        1
    }
}

/// Walking the code from index `i`, each byte met is an instruction, a
/// constant load is followed by the index of one of `n` constants, a jump by
/// its two operand bytes, and the walk ends exactly at the end of the code.
pub open spec fn loads_in_range(code: Seq<Chunk>, i: int, n: nat) -> bool
    decreases code.len() - i,
{
    if i == code.len() {
        true
    } else if i < 0 || i > code.len() {
        false
    } else if opcode_of_byte(code[i].op) == Some(OpCode::Constant) {
        i + 1 < code.len() && code[i + 1].op < n && loads_in_range(code, i + 2, n)
    } else if is_jump_byte(code[i].op) {
        i + 2 < code.len() && loads_in_range(code, i + 3, n)
    } else {
        opcode_of_byte(code[i].op) is Some && loads_in_range(code, i + 1, n)
    }
}

/// Walking the code instruction by instruction from `i` meets index `k`.
pub open spec fn reaches(code: Seq<Chunk>, i: int, k: int) -> bool
    decreases code.len() - i,
{
    if i == k {
        true
    } else if i < 0 || i > k || i + walk_size(code, i) > code.len() {
        false
    } else {
        reaches(code, i + walk_size(code, i), k)
    }
}

pub proof fn lemma_loads_shift(a: Seq<Chunk>, b: Seq<Chunk>, j: int, n: nat)
    requires
        0 <= j <= b.len(),
    ensures
        loads_in_range(a + b, a.len() + j, n) == loads_in_range(b, j, n),
    decreases b.len() - j,
{
    if j < b.len() {
        assert((a + b)[a.len() + j] == b[j]);
        if j + 1 < b.len() {
            assert((a + b)[a.len() + j + 1] == b[j + 1]);
        }
        if opcode_of_byte(b[j].op) == Some(OpCode::Constant) {
            if j + 2 <= b.len() {
                lemma_loads_shift(a, b, j + 2, n);
            }
        } else if is_jump_byte(b[j].op) {
            if j + 3 <= b.len() {
                lemma_loads_shift(a, b, j + 3, n);
            }
        } else {
            lemma_loads_shift(a, b, j + 1, n);
        }
    }
}

pub proof fn lemma_loads_append(a: Seq<Chunk>, b: Seq<Chunk>, i: int, n: nat)
    requires
        0 <= i <= a.len(),
        loads_in_range(a, i, n),
        loads_in_range(b, 0, n),
    ensures
        loads_in_range(a + b, i, n),
    decreases a.len() - i,
{
    if i == a.len() {
        lemma_loads_shift(a, b, 0, n);
    } else {
        assert((a + b)[i] == a[i]);
        if opcode_of_byte(a[i].op) == Some(OpCode::Constant) {
            assert((a + b)[i + 1] == a[i + 1]);
            lemma_loads_append(a, b, i + 2, n);
        } else if is_jump_byte(a[i].op) {
            lemma_loads_append(a, b, i + 3, n);
        } else {
            lemma_loads_append(a, b, i + 1, n);
        }
    }
}

pub proof fn lemma_loads_more_constants(code: Seq<Chunk>, i: int, n: nat, m: nat)
    requires
        n <= m,
        loads_in_range(code, i, n),
    ensures
        loads_in_range(code, i, m),
    decreases code.len() - i,
{
    if 0 <= i < code.len() {
        if opcode_of_byte(code[i].op) == Some(OpCode::Constant) {
            lemma_loads_more_constants(code, i + 2, n, m);
        } else if is_jump_byte(code[i].op) {
            lemma_loads_more_constants(code, i + 3, n, m);
        } else {
            lemma_loads_more_constants(code, i + 1, n, m);
        }
    }
}

/// A clean walk from `i` meets the end of the code.
pub proof fn lemma_loads_reach_end(code: Seq<Chunk>, i: int, n: nat)
    requires
        loads_in_range(code, i, n),
    ensures
        reaches(code, i, code.len() as int),
    decreases code.len() - i,
{
    if i < code.len() {
        lemma_loads_reach_end(code, i + walk_size(code, i), n);
    }
}

/// A walk that meets `k` reads only the bytes before `k`.
pub proof fn lemma_reaches_agree(c1: Seq<Chunk>, c2: Seq<Chunk>, i: int, k: int)
    requires
        k <= c1.len(),
        k <= c2.len(),
        forall|j: int| 0 <= j < k ==> c1[j] == c2[j],
        reaches(c1, i, k),
    ensures
        reaches(c2, i, k),
    decreases c1.len() - i,
{
    if i != k {
        assert(c1[i] == c2[i]);
        lemma_reaches_agree(c1, c2, i + walk_size(c1, i), k);
    }
}

/// A walk from `i` reads only the bytes from `i` on.
pub proof fn lemma_loads_agree_from(c1: Seq<Chunk>, c2: Seq<Chunk>, i: int, n: nat)
    requires
        c1.len() == c2.len(),
        forall|j: int| i <= j < c1.len() ==> c1[j] == c2[j],
        loads_in_range(c1, i, n),
    ensures
        loads_in_range(c2, i, n),
    decreases c1.len() - i,
{
    if 0 <= i < c1.len() {
        assert(c1[i] == c2[i]);
        if i + 1 < c1.len() {
            assert(c1[i + 1] == c2[i + 1]);
        }
        lemma_loads_agree_from(c1, c2, i + walk_size(c1, i), n);
    }
}

/// Filling in the operand bytes of a jump that the walk meets keeps the walk
/// clean.
pub proof fn lemma_loads_patch(code: Seq<Chunk>, i: int, q: int, d: int, n: nat)
    requires
        reaches(code, i, q),
        0 <= q,
        q + 2 < code.len(),
        is_jump_byte(code[q].op),
        loads_in_range(code, i, n),
    ensures
        loads_in_range(patch_jump(code, q + 1, d), i, n),
    decreases code.len() - i,
{
    let c2 = patch_jump(code, q + 1, d);
    if i == q {
        assert(c2[q] == code[q]);
        lemma_loads_agree_from(code, c2, q + 3, n);
    } else {
        assert(c2[i] == code[i]);
        if i + 1 < q {
            assert(c2[i + 1] == code[i + 1]);
        }
        lemma_loads_patch(code, i + walk_size(code, i), q, d, n);
    }
}

/// A walk that meets `k` within `a` does so in any code that starts with `a`.
pub proof fn lemma_reaches_prefix(a: Seq<Chunk>, b: Seq<Chunk>, i: int, k: int)
    requires
        k <= a.len(),
        reaches(a, i, k),
    ensures
        reaches(a + b, i, k),
{
    assert forall|j: int| 0 <= j < k implies a[j] == (a + b)[j] by {}
    lemma_reaches_agree(a, a + b, i, k);
}

/// Appending one instruction other than a constant load or a jump keeps the
/// code well formed.
pub proof fn lemma_append_op(code: Seq<Chunk>, n: nat, c: Chunk)
    requires
        loads_in_range(code, 0, n),
        opcode_of_byte(c.op) is Some,
        opcode_of_byte(c.op) != Some(OpCode::Constant),
        !is_jump_byte(c.op),
    ensures
        loads_in_range(code.push(c), 0, n),
{
    assert(loads_in_range(seq![c], 0, n)) by {
        assert(loads_in_range(seq![c], 1, n));
    }
    assert(code.push(c) =~= code + seq![c]);
    lemma_loads_append(code, seq![c], 0, n);
}

/// The jump whose operand bytes start at `p` is met by a walk from the start.
pub open spec fn jump_open(code: Seq<Chunk>, p: int) -> bool {
    &&& 1 <= p
    &&& p + 2 <= code.len()
    &&& reaches(code, 0, p - 1)
    &&& is_jump_byte(code[p - 1].op)
}

/// The open jumps lie within the code, in increasing order.
/// The positions held in `v`, as integers.
pub open spec fn positions(v: Seq<usize>) -> Seq<int> {
    v.map_values(|p: usize| p as int)
}

pub open spec fn pending_in_code(code: Seq<Chunk>, pending: Seq<int>) -> bool {
    &&& forall|k: int| 0 <= k < pending.len() ==> 1 <= #[trigger] pending[k] && pending[k] + 2 <= code.len()
    &&& forall|k: int, l: int| 0 <= k < l < pending.len() ==> #[trigger] pending[k] < #[trigger] pending[l]
}

/// The output is sound: at most `STACK_MAX` constants, and, unless an error
/// was reported, code that walks cleanly with every constant load in range.
pub open spec fn sound_output(out: Output) -> bool {
    &&& out.values.len() <= STACK_MAX
    &&& (out.errs.len() > 0 || loads_in_range(out.chunks, 0, out.values.len()))
}

/// Sound output whose open jumps, unless an error was reported, are met by a
/// walk from the start.
pub open spec fn sound_emission(out: Output, pending: Seq<int>) -> bool {
    &&& sound_output(out)
    &&& pending_in_code(out.chunks, pending)
    &&& (out.errs.len() > 0 || forall|k: int|
        0 <= k < pending.len() ==> jump_open(out.chunks, #[trigger] pending[k]))
}

pub proof fn lemma_emit_node_sound(out: Output, node: NodeView, loc: Position)
    requires
        sound_output(out),
    ensures
        emit_node(out, node, loc) matches Some((out1, _)) ==> sound_output(out1) && out1.errs.len()
            >= out.errs.len() && out.chunks.is_prefix_of(out1.chunks),
{
    if let Some((out1, _)) = emit_node(out, node, loc) {
        match node {
            NodeView::Operator(op) => {
                assert(out.chunks.is_prefix_of(out1.chunks)) by {
                    assert(out1.chunks.subrange(0, out.chunks.len() as int) =~= out.chunks);
                }
                if out.errs.len() == 0 {
                    lemma_append_op(
                        out.chunks,
                        out.values.len(),
                        Chunk { line: loc.line, op: opcode_byte(operator_opcode(op).unwrap()) },
                    );
                }
            },
            NodeView::Value(v) => {
                assert(out.chunks.is_prefix_of(out1.chunks)) by {
                    assert(out1.chunks.subrange(0, out.chunks.len() as int) =~= out.chunks);
                }
                if out.values.len() != STACK_MAX && out.errs.len() == 0 {
                    let n = out.values.len();
                    let pair = seq![
                        Chunk { line: loc.line, op: opcode_byte(OpCode::Constant) },
                        Chunk { line: loc.line, op: n as u8 },
                    ];
                    assert(loads_in_range(pair, 0, n + 1)) by {
                        assert(loads_in_range(pair, 2, n + 1));
                    }
                    lemma_loads_more_constants(out.chunks, 0, n, n + 1);
                    lemma_loads_append(out.chunks, pair, 0, n + 1);
                    assert(out1.chunks =~= out.chunks + pair);
                }
            },
            _ => {
                assert(out1.chunks =~= out.chunks);
            },
        }
    }
}

/// Compiling a node only adds code.
pub proof fn lemma_emit_node_grows(out: Output, node: NodeView, loc: Position)
    ensures
        emit_node(out, node, loc) matches Some((out1, _)) ==> out1.chunks.len() >= out.chunks.len(),
{
}

/// The code of a short cut walks cleanly, its jump to be filled in met by
/// the walk.
pub proof fn lemma_short_circuit_code(a: Seq<Chunk>, line: usize, is_or: bool, n: nat)
    requires
        loads_in_range(a, 0, n),
    ensures
        loads_in_range(a + short_circuit_code(line, is_or), 0, n),
        jump_open(a + short_circuit_code(line, is_or), a.len() + open_jump_operand(is_or)),
{
    let c = short_circuit_code(line, is_or);
    let all = a + c;
    let m = a.len() as int;
    if is_or {
        assert(loads_in_range(c, 7, n));
        assert(loads_in_range(c, 6, n));
        assert(loads_in_range(c, 3, n));
        assert(loads_in_range(c, 0, n));
    } else {
        assert(loads_in_range(c, 4, n));
        assert(loads_in_range(c, 3, n));
        assert(loads_in_range(c, 0, n));
    }
    lemma_loads_append(a, c, 0, n);
    lemma_loads_reach_end(a, 0, n);
    lemma_reaches_prefix(a, c, 0, m);
    assert(all[m] == c[0]);
    if is_or {
        assert(all[m + 3] == c[3]);
        assert(walk_size(all, m) == 3);
        assert(reaches(all, m + 3, m + 3));
        lemma_reaches_join(all, 0, m, m + 3);
    }
}

/// Walks join: meeting `j` from `i`, and `k` from `j`, meets `k` from `i`.
pub proof fn lemma_reaches_join(code: Seq<Chunk>, i: int, j: int, k: int)
    requires
        reaches(code, i, j),
        reaches(code, j, k),
    ensures
        reaches(code, i, k),
    decreases code.len() - i,
{
    if i != j {
        lemma_reaches_join(code, i + walk_size(code, i), j, k);
    }
}

/// A filled-in jump of `and` or `or` lands just past the code emitted so
/// far, that is, just after the right operand: the machine reads back from
/// the two operand bytes the distance the compiler wrote.
pub proof fn lemma_filled_jump_lands_after_right_operand(code: Seq<Chunk>, p: int)
    requires
        1 <= p,
        p + 2 <= code.len(),
        code.len() - (p + 2) <= MAX_JUMP,
    ensures
        (p - 1) + 3 + crate::vm::jump_offset(patch_jump(code, p, code.len() - (p + 2)), p - 1)
            == code.len(),
{
    let d = code.len() - (p + 2);
    let patched = patch_jump(code, p, d);
    assert(patched[p].op == (d / 256) as u8);
    assert(patched[p + 1].op == (d % 256) as u8);
    assert((d / 256) as u8 == d / 256 && (d % 256) as u8 == d % 256 && (d / 256) * 256 + d % 256 == d)
        by (nonlinear_arith)
        requires
            0 <= d <= 65535,
    ;
}

pub proof fn lemma_emit_step_sound(out: Output, pending: Seq<int>, node: NodeView, loc: Position)
    requires
        sound_emission(out, pending),
    ensures
        emit_step(out, pending, node, loc) matches Some((out1, pending1, _)) ==> sound_emission(
            out1,
            pending1,
        ) && out1.errs.len() >= out.errs.len(),
{
    let n = out.values.len();
    match node {
        NodeView::ShortCircuit(op) => {
            if op == Operator::And || op == Operator::Or {
                let is_or = op == Operator::Or;
                let c = short_circuit_code(loc.line, is_or);
                let (out1, pending1, _) = emit_step(out, pending, node, loc).unwrap();
                let m = out.chunks.len() as int;
                assert(pending1.last() == m + open_jump_operand(is_or));
                if out.errs.len() == 0 {
                    lemma_short_circuit_code(out.chunks, loc.line, is_or, n);
                    assert forall|k: int| 0 <= k < pending1.len() implies jump_open(
                        out1.chunks,
                        #[trigger] pending1[k],
                    ) by {
                        if k < pending.len() {
                            let p = pending[k];
                            assert(jump_open(out.chunks, p));
                            lemma_reaches_prefix(out.chunks, c, 0, p - 1);
                            assert(out1.chunks[p - 1] == out.chunks[p - 1]);
                        }
                    }
                }
            }
        },
        NodeView::Operator(op) => {
            if op == Operator::And || op == Operator::Or {
                if pending.len() > 0 {
                    let (out1, pending1, _) = emit_step(out, pending, node, loc).unwrap();
                    lemma_append_check(out, pending, loc.line);
                    let out = Output { chunks: out.chunks + boolean_check_code(loc.line), ..out };
                    let top = pending.len() - 1;
                    let p = pending[top];
                    let d = out.chunks.len() - (p + 2);
                    if d <= MAX_JUMP {
                        let code1 = patch_jump(out.chunks, p, d);
                        assert(out1.chunks == code1);
                        if out.errs.len() == 0 {
                            assert(jump_open(out.chunks, p));
                            lemma_loads_patch(out.chunks, 0, p - 1, d, n);
                            assert forall|k: int| 0 <= k < pending1.len() implies jump_open(
                                code1,
                                #[trigger] pending1[k],
                            ) by {
                                assert(pending1[k] == pending[k]);
                                let pk = pending[k];
                                assert(pk < p);
                                assert(jump_open(out.chunks, pk));
                                assert forall|j: int| 0 <= j < pk - 1 implies out.chunks[j] == code1[j] by {}
                                lemma_reaches_agree(out.chunks, code1, 0, pk - 1);
                                assert(code1[pk - 1] == out.chunks[pk - 1]);
                            }
                        }
                        assert forall|k: int| 0 <= k < pending1.len() implies 1 <= #[trigger] pending1[k]
                            && pending1[k] + 2 <= code1.len() by {
                            assert(pending1[k] == pending[k]);
                        }
                        assert forall|k: int, l: int| 0 <= k < l < pending1.len() implies #[trigger] pending1[k]
                            < #[trigger] pending1[l] by {
                            assert(pending1[k] == pending[k]);
                            assert(pending1[l] == pending[l]);
                        }
                    } else {
                        assert forall|k: int| 0 <= k < pending1.len() implies 1 <= #[trigger] pending1[k]
                            && pending1[k] + 2 <= out1.chunks.len() by {
                            assert(pending1[k] == pending[k]);
                        }
                        assert forall|k: int, l: int| 0 <= k < l < pending1.len() implies #[trigger] pending1[k]
                            < #[trigger] pending1[l] by {
                            assert(pending1[k] == pending[k]);
                            assert(pending1[l] == pending[l]);
                        }
                    }
                }
            } else {
                lemma_emit_step_plain(out, pending, node, loc);
            }
        },
        _ => {
            lemma_emit_step_plain(out, pending, node, loc);
        },
    }
}

/// Appending the check on the right operand keeps the output sound.
pub proof fn lemma_append_check(out: Output, pending: Seq<int>, line: usize)
    requires
        sound_emission(out, pending),
    ensures
        sound_emission(Output { chunks: out.chunks + boolean_check_code(line), ..out }, pending),
{
    let c = boolean_check_code(line);
    let chunks = out.chunks + c;
    let n = out.values.len();
    if out.errs.len() == 0 {
        assert(loads_in_range(c, 3, n));
        assert(loads_in_range(c, 0, n));
        lemma_loads_append(out.chunks, c, 0, n);
        assert forall|k: int| 0 <= k < pending.len() implies jump_open(chunks, #[trigger] pending[k]) by {
            let p = pending[k];
            assert(jump_open(out.chunks, p));
            lemma_reaches_prefix(out.chunks, c, 0, p - 1);
            assert(chunks[p - 1] == out.chunks[p - 1]);
        }
    }
}

/// A node compiled by `emit_node` keeps the open jumps sound.
pub proof fn lemma_emit_step_plain(out: Output, pending: Seq<int>, node: NodeView, loc: Position)
    requires
        sound_emission(out, pending),
        emit_node(out, node, loc) matches Some((out1, _)) ==> emit_step(out, pending, node, loc)
            == Some((out1, pending, emit_node(out, node, loc).unwrap().1)),
    ensures
        emit_node(out, node, loc) matches Some((out1, _)) ==> sound_emission(out1, pending)
            && out1.errs.len() >= out.errs.len(),
{
    lemma_emit_node_sound(out, node, loc);
    if let Some((out1, _)) = emit_node(out, node, loc) {
        if out1.errs.len() == 0 {
            assert forall|k: int| 0 <= k < pending.len() implies jump_open(
                out1.chunks,
                #[trigger] pending[k],
            ) by {
                let p = pending[k];
                assert(jump_open(out.chunks, p));
                let rest = out1.chunks.subrange(out.chunks.len() as int, out1.chunks.len() as int);
                assert(out1.chunks =~= out.chunks + rest);
                lemma_reaches_prefix(out.chunks, rest, 0, p - 1);
            }
        }
    }
}

pub proof fn lemma_emit_nodes_sound(nodes: Seq<NodeView>, out: Output, pending: Seq<int>, loc: Position)
    requires
        sound_emission(out, pending),
    ensures
        emit_nodes(nodes, out, pending, loc) matches Some((out1, pending1, _)) ==> sound_emission(
            out1,
            pending1,
        ) && out1.errs.len() >= out.errs.len(),
    decreases nodes.len(),
{
    if nodes.len() > 0 {
        lemma_emit_step_sound(out, pending, nodes[0], loc);
        if let Some((out1, pending1, _)) = emit_step(out, pending, nodes[0], loc) {
            lemma_emit_nodes_sound(nodes.drop_first(), out1, pending1, loc);
        }
    }
}

pub proof fn lemma_statement_sound(ts: Seq<LoxToken>, text: Seq<(usize, char)>, cs: CompileState)
    requires
        sound_output(cs.out),
    ensures
        statement_spec(ts, text, cs) matches Some((_, cs1)) ==> sound_output(cs1.out),
{
    let print = next_is(ts, cs.parse, TokenKind::Print);
    let cs0 = if print {
        with_parse(cs, advance(ts, cs.parse))
    } else {
        cs
    };
    let (tree, ps) = parse_expr(ts, text, cs0.parse, 0);
    lemma_emit_nodes_sound(postorder(tree), cs0.out, seq![], location_of(ps.previous));
    if let Some((true, cs1)) = expression_statement_spec(ts, text, cs0) {
        if cs1.out.errs.len() == 0 {
            let op = if print {
                opcode_byte(OpCode::Print)
            } else {
                opcode_byte(OpCode::Pop)
            };
            let line = if print {
                location_of(cs1.parse.previous).line
            } else {
                location_of(advance(ts, cs1.parse).previous).line
            };
            lemma_append_op(cs1.out.chunks, cs1.out.values.len(), Chunk { line, op });
        }
    }
}

pub proof fn lemma_declaration_sound(ts: Seq<LoxToken>, text: Seq<(usize, char)>, cs: CompileState)
    requires
        sound_output(cs.out),
    ensures
        declaration_spec(ts, text, cs) matches Some((_, cs1)) ==> sound_output(cs1.out),
    decreases remaining(ts, cs.parse),
{
    if cs.parse.pos < ts.len() {
        lemma_statement_sound(ts, text, cs);
        if let Some((true, cs1)) = statement_spec(ts, text, cs) {
            if remaining(ts, cs1.parse) < remaining(ts, cs.parse) {
                lemma_declaration_sound(ts, text, cs1);
            }
        }
    }
}

pub proof fn lemma_compile_loop_sound(ts: Seq<LoxToken>, text: Seq<(usize, char)>, cs: CompileState)
    requires
        sound_output(cs.out),
    ensures
        compile_loop(ts, text, cs) matches Some(cs1) ==> sound_output(cs1.out),
    decreases remaining(ts, cs.parse),
{
    if cs.parse.pos < ts.len() {
        lemma_declaration_sound(ts, text, cs);
        if let Some((ok, cs1)) = declaration_spec(ts, text, cs) {
            let cs2 = if ok {
                cs1
            } else {
                with_parse(cs1, recover(ts, cs1.parse))
            };
            if remaining(ts, cs2.parse) < remaining(ts, cs.parse) {
                lemma_compile_loop_sound(ts, text, cs2);
            }
        }
    }
}

/// Code that compiles without error ends with `Return`, decodes instruction
/// by instruction from its first byte to its last, and loads only constants
/// that the compiler produced, of which there are at most `STACK_MAX`.
pub proof fn lemma_compiled_code_is_well_formed(ts: Seq<LoxToken>, text: Seq<(usize, char)>)
    ensures
        compile_tokens(ts, text) matches Some(Ok((chunks, values))) ==> {
            &&& loads_in_range(chunks, 0, values.len())
            &&& values.len() <= STACK_MAX
            &&& chunks.len() > 0
            &&& chunks.last().op == opcode_byte(OpCode::Return)
        },
{
    let cs0 = initial_state();
    assert(loads_in_range(cs0.out.chunks, 0, 0));
    lemma_compile_loop_sound(ts, text, cs0);
    if let Some(cs) = compile_loop(ts, text, cs0) {
        if cs.out.errs.len() == 0 {
            lemma_append_op(
                cs.out.chunks,
                cs.out.values.len(),
                Chunk { line: location_of(cs.parse.previous).line, op: opcode_byte(OpCode::Return) },
            );
        }
    }
}

/// The node views of a sequence of expression-tree nodes.
pub open spec fn node_views(nodes: Seq<ExpressionTreeNode>) -> Seq<NodeView> {
    nodes.map_values(|n: ExpressionTreeNode| n@)
}

/// Every string token spans at least its two quotes.
pub open spec fn strings_quoted(ts: Seq<LoxToken>, text: Seq<(usize, char)>) -> bool {
    forall|k: int|
        0 <= k < ts.len() && (#[trigger] ts[k]).kind == TokenKind::String ==> lexeme(text, ts[k]).len()
            >= 2
}

pub enum FunctionType {
    Function,
    Initializer,
    Method,
    Script,
}

pub enum CompilerState {
    Panic,
    Declaration,
}

/// A compile error and the place it concerns.
#[derive(Debug)]
pub struct CompileErr {
    pub kind: CompileErrKind,
    pub location: Position,
}

#[derive(Debug)]
pub enum CompileErrKind {
    Parse(LoxParseErr),
    UnexpectedToken(Unexpected),
    TooManyValues,
    MissingSemicolon,
    /// The right operand of `and` or `or` is too long for a jump to skip.
    TooMuchCodeToJump,
}

pub enum CompileErrKindView {
    Parse(LoxParseErr),
    UnexpectedToken(UnexpectedView),
    TooManyValues,
    MissingSemicolon,
    TooMuchCodeToJump,
}

pub struct CompileErrView {
    pub kind: CompileErrKindView,
    pub location: Position,
}

impl View for CompileErrKind {
    type V = CompileErrKindView;

    open spec fn view(&self) -> CompileErrKindView {
        match self {
            CompileErrKind::Parse(e) => CompileErrKindView::Parse(*e),
            CompileErrKind::UnexpectedToken(u) => CompileErrKindView::UnexpectedToken(u@),
            CompileErrKind::TooManyValues => CompileErrKindView::TooManyValues,
            CompileErrKind::MissingSemicolon => CompileErrKindView::MissingSemicolon,
            CompileErrKind::TooMuchCodeToJump => CompileErrKindView::TooMuchCodeToJump,
        }
    }
}

impl View for CompileErr {
    type V = CompileErrView;

    open spec fn view(&self) -> CompileErrView {
        CompileErrView { kind: self.kind@, location: self.location }
    }
}

pub open spec fn error_views(errs: Seq<CompileErr>) -> Seq<CompileErrView> {
    errs.map_values(|e: CompileErr| e@)
}

pub open spec fn value_views(values: Seq<Value>) -> Seq<ValueView> {
    values.map_values(|v: Value| v@)
}

impl Operator {
    /// The instructions the operator compiles to.
    pub fn to_bytecodes(&self) -> (r: Vec<OpCode>)
        requires
            operator_opcode(*self) is Some,
        ensures
            r@ == seq![operator_opcode(*self).unwrap()],
    {
        match self {
            Operator::Equal => vec![OpCode::Equal],
            Operator::Not => vec![OpCode::Not],
            Operator::Greater => vec![OpCode::Greater],
            Operator::Less => vec![OpCode::Less],
            Operator::Divide => vec![OpCode::Divide],
            Operator::Multiply => vec![OpCode::Multiply],
            Operator::Add => vec![OpCode::Add],
            Operator::Subtract => vec![OpCode::Subtract],
            Operator::SignFlip => vec![OpCode::Negate],
            _ => vec![],
        }
    }

    /// The text of the operator.
    pub fn as_str(&self) -> (r: &'static str)
        ensures
            r@ == operator_text(*self),
    {
        match self {
            Operator::Assignment => "=",
            Operator::Or => "||",
            Operator::And => "&&",
            Operator::Equal => "==",
            Operator::Not => " !",
            Operator::Greater => " >",
            Operator::Less => " <",
            Operator::Divide => " /",
            Operator::Multiply => " *",
            Operator::Add => " +",
            Operator::Subtract => " -",
            Operator::SignFlip => " -",
        }
    }

    /// Whether the operator compiles to a single instruction.
    pub fn is_compiled(&self) -> (r: bool)
        ensures
            r == (operator_opcode(*self) is Some),
    {
        match self {
            Operator::Assignment | Operator::And | Operator::Or => false,
            _ => true,
        }
    }
}

impl CompileErrKind {
    pub fn as_str(&self) -> (r: &'static str)
        ensures
            r@ == ""@,
    {
        ""
    }
}


/// What a compile result holds.
pub open spec fn compiled_view(r: Option<Result<(Vec<Chunk>, FixedVec<Value, STACK_MAX>), Vec<CompileErr>>>) -> Option<
    Result<(Seq<Chunk>, Seq<ValueView>), Seq<CompileErrView>>,
> {
    match r {
        None => None,
        Some(Ok((chunks, values))) => Some(Ok((chunks@, value_views(values@)))),
        Some(Err(errs)) => Some(Err(error_views(errs@))),
    }
}

/// Compiles one function body from its tokens.
pub struct Compiler {
    f_type: FunctionType,
    state: CompilerState,
    chunks: Vec<Chunk>,
    errs: Vec<CompileErr>,
    values: FixedVec<Value, STACK_MAX>,
    source_code: Vec<(usize, char)>,
    tokens: Vec<LoxToken>,
    next: usize,
    previous: Option<LoxToken>,
    current: Option<LoxToken>,
}

impl Compiler {
    pub closed spec fn token_seq(&self) -> Seq<LoxToken> {
        self.tokens@
    }

    pub closed spec fn text(&self) -> Seq<(usize, char)> {
        self.source_code@
    }

    pub closed spec fn parse_state(&self) -> ParseState {
        ParseState { pos: self.next as nat, previous: self.previous, current: self.current }
    }

    pub closed spec fn code(&self) -> Seq<Chunk> {
        self.chunks@
    }

    pub closed spec fn constants(&self) -> Seq<ValueView> {
        value_views(self.values@)
    }

    pub closed spec fn errors(&self) -> Seq<CompileErrView> {
        error_views(self.errs@)
    }

    /// Where the parser stands and what the compiler has produced.
    pub open spec fn cstate(&self) -> CompileState {
        CompileState {
            parse: self.parse_state(),
            out: Output { chunks: self.code(), values: self.constants(), errs: self.errors() },
        }
    }

    pub closed spec fn wf(&self) -> bool {
        &&& self.next <= self.tokens@.len()
        &&& strings_quoted(self.tokens@, self.source_code@)
    }

    /// The two compilers differ at most in where their parsers stand.
    pub open spec fn same_but_parse(&self, other: &Compiler) -> bool {
        &&& self.token_seq() == other.token_seq()
        &&& self.text() == other.text()
        &&& self.code() == other.code()
        &&& self.constants() == other.constants()
        &&& self.errors() == other.errors()
    }

    /// Takes the next token; the last one becomes the previous one.
    fn next_token(&mut self) -> (r: Option<LoxToken>)
        requires
            old(self).wf(),
        ensures
            final(self).wf(),
            final(self).same_but_parse(old(self)),
            final(self).parse_state() == advance(old(self).token_seq(), old(self).parse_state()),
            r == final(self).parse_state().current,
    {
        self.previous = self.current;
        if self.next < self.tokens.len() {
            let token = self.tokens[self.next];
            self.next = self.next + 1;
            self.current = Some(token);
        } else {
            self.current = None;
        }
        self.current
    }

    /// Takes the next token when there is one and `predicate` holds of it.
    fn match_token_if<P: Fn(LoxToken) -> bool>(
        &mut self,
        predicate: &P,
        Ghost(pred): Ghost<spec_fn(LoxToken) -> bool>,
    ) -> (r: bool)
        requires
            old(self).wf(),
            forall|t: LoxToken| predicate.requires((t,)),
            forall|t: LoxToken, b: bool| predicate.ensures((t,), b) ==> b == pred(t),
        ensures
            final(self).wf(),
            final(self).same_but_parse(old(self)),
            r == (old(self).parse_state().pos < old(self).token_seq().len() && pred(
                old(self).token_seq()[old(self).parse_state().pos as int],
            )),
            r ==> final(self).parse_state() == advance(old(self).token_seq(), old(self).parse_state()),
            !r ==> final(self).parse_state() == old(self).parse_state(),
    {
        if self.next < self.tokens.len() {
            let token = self.tokens[self.next];
            if predicate(token) {
                self.next_token();
                true
            } else {
                false
            }
        } else {
            false
        }
    }

    /// Takes the next token when it is of kind `kind`.
    fn match_token(&mut self, kind: TokenKind) -> (r: bool)
        requires
            old(self).wf(),
        ensures
            final(self).wf(),
            final(self).same_but_parse(old(self)),
            r == next_is(old(self).token_seq(), old(self).parse_state(), kind),
            r ==> final(self).parse_state() == advance(old(self).token_seq(), old(self).parse_state()),
            !r ==> final(self).parse_state() == old(self).parse_state(),
    {
        let same_kind = |token: LoxToken| -> (b: bool)
            ensures
                b == (token.kind == kind),
            { token.kind() == kind };
        self.match_token_if(&same_kind, Ghost(|token: LoxToken| token.kind == kind))
    }

    /// The start of the previous token, or the start of the text.
    fn location(&self) -> (r: Position)
        ensures
            r == location_of(self.parse_state().previous),
    {
        match self.previous {
            None => Position::start_of_text(),
            Some(token) => token.get_start(),
        }
    }

    /// An error of `kind` at the start of the previous token.
    fn error(&self, kind: CompileErrKind) -> (r: CompileErr)
        ensures
            r@ == (CompileErrView { kind: kind@, location: location_of(self.parse_state().previous) }),
    {
        CompileErr { kind, location: self.location() }
    }

    /// An error of `kind` at the start of the last token taken.
    fn error_at_current(&self, kind: CompileErrKind) -> (r: CompileErr)
        requires
            self.parse_state().current is Some,
        ensures
            r@ == (CompileErrView {
                kind: kind@,
                location: self.parse_state().current.unwrap().span.start,
            }),
    {
        match self.current {
            Some(token) => CompileErr { kind, location: token.get_start() },
            None => CompileErr { kind, location: Position::start_of_text() },
        }
    }

    /// A byte of code on the line of the previous token.
    fn chunk(&self, code: u8) -> (r: Chunk)
        ensures
            r == (Chunk { line: location_of(self.parse_state().previous).line, op: code }),
    {
        Chunk { line: self.location().line(), op: code }
    }

    /// The characters of a token's text.
    fn lexeme_of(&self, token: LoxToken) -> (r: Vec<char>)
        ensures
            r@ == lexeme(self.text(), token),
    {
        let start = token.span.start.byte;
        let end = token.span.end.byte;
        let mut out: Vec<char> = Vec::new();
        let mut k: usize = 0;
        while k < self.source_code.len()
            invariant
                0 <= k <= self.source_code@.len(),
                out@ == chars_between(self.source_code@.take(k as int), start as int, end as int),
            decreases self.source_code@.len() - k,
        {
            let (byte, ch) = self.source_code[k];
            assert(self.source_code@.take(k + 1).drop_last() =~= self.source_code@.take(k as int));
            if start <= byte && byte < end {
                out.push(ch);
            }
            k = k + 1;
        }
        assert(self.source_code@.take(k as int) =~= self.source_code@);
        out
    }

    /// A leaf holding `value`.
    fn value_node(value: Value) -> (r: ExprTree)
        ensures
            r@ == leaf(NodeView::Value(value@)),
    {
        ExprTree { value: ExpressionTreeNode::Leaf(ExpressionLeaf::Value(value)), left: None, right: None }
    }

    /// A leaf holding a syntax error.
    fn error_leaf(expected: Vec<TokenKind>, actual: TokenKind, location: Position) -> (r: ExprTree)
        ensures
            r@ == leaf(error_node(expected@, actual, location)),
    {
        ExprTree {
            value: ExpressionTreeNode::Leaf(
                ExpressionLeaf::Error(Unexpected { expected, actual, location }),
            ),
            left: None,
            right: None,
        }
    }

    /// A node for `op` over the given operands.
    fn operator_node(op: Operator, left: Option<ExprTree>, right: Option<ExprTree>) -> (r: ExprTree)
        ensures
            r@ == node(
                NodeView::Operator(op),
                match left {
                    Some(l) => Some(l@),
                    None => None,
                },
                match right {
                    Some(t) => Some(t@),
                    None => None,
                },
            ),
    {
        ExprTree {
            value: ExpressionTreeNode::Branch(ExpressionBranch::Operator(op)),
            left: match left {
                Some(l) => Some(Box::new(l)),
                None => None,
            },
            right: match right {
                Some(t) => Some(Box::new(t)),
                None => None,
            },
        }
    }

    /// The point where the right operand of `op` may be skipped, over the
    /// left operand.
    fn short_circuit_node(op: Operator, left: ExprTree) -> (r: ExprTree)
        ensures
            r@ == node(NodeView::ShortCircuit(op), Some(left@), None),
    {
        ExprTree {
            value: ExpressionTreeNode::Branch(ExpressionBranch::ShortCircuit(op)),
            left: Some(Box::new(left)),
            right: None,
        }
    }

    /// A primary expression: a literal, or an expression in parentheses.
    fn primary(&mut self) -> (r: ExprTree)
        requires
            old(self).wf(),
        ensures
            final(self).wf(),
            final(self).same_but_parse(old(self)),
            (r@, final(self).parse_state()) == parse_expr(
                old(self).token_seq(),
                old(self).text(),
                old(self).parse_state(),
                7,
            ),
        decreases remaining(old(self).token_seq(), old(self).parse_state()), expr_rank(7),
    {
        let ghost ts = self.token_seq();
        let ghost text = self.text();
        let token = self.next_token();
        match token {
            None => Compiler::error_leaf(
                vec![
                    TokenKind::True,
                    TokenKind::False,
                    TokenKind::Number,
                    TokenKind::String,
                    TokenKind::Nil,
                ],
                TokenKind::EOF,
                self.location(),
            ),
            Some(token) => {
                let kind = token.kind();
                if kind == TokenKind::True {
                    Compiler::value_node(Value::Boolean(true))
                } else if kind == TokenKind::False {
                    Compiler::value_node(Value::Boolean(false))
                } else if kind == TokenKind::Number {
                    let digits = self.lexeme_of(token);
                    Compiler::value_node(Value::Number(string_from_chars(digits.as_slice())))
                } else if kind == TokenKind::String {
                    // The value is copied out of the source text, so that the
                    // text can be released before the code runs.
                    let source = self.lexeme_of(token);
                    let mut body: Vec<char> = Vec::new();
                    let mut k: usize = 1;
                    proof {
                        let j = choose|j: int| 0 <= j < ts.len() && ts[j] == token;
                        assert(lexeme(text, ts[j]).len() >= 2);
                    }
                    while k < source.len() - 1
                        invariant
                            2 <= source@.len(),
                            1 <= k <= source@.len() - 1,
                            body@ == source@.subrange(1, k as int),
                        decreases source@.len() - k,
                    {
                        body.push(source[k]);
                        k = k + 1;
                        assert(body@ =~= source@.subrange(1, k as int));
                    }
                    let string = string_from_chars(body.as_slice());
                    Compiler::value_node(
                        Value::Object(Box::new(Object::String(rc_str_from(string.as_str())))),
                    )
                } else if kind == TokenKind::Nil {
                    Compiler::value_node(Value::Nil)
                } else if kind == TokenKind::LeftParen {
                    // A grouping starts again at the lowest precedence.
                    let result = self.or();
                    if !self.match_token(TokenKind::RightParen) {
                        let actual = if self.next < self.tokens.len() {
                            self.tokens[self.next].kind()
                        } else {
                            TokenKind::EOF
                        };
                        let expected = vec![TokenKind::RightParen];
                        assert(expected@ =~= seq![TokenKind::RightParen]);
                        return Compiler::error_leaf(
                            expected,
                            actual,
                            self.location(),
                        );
                    }
                    result
                } else {
                    Compiler::error_leaf(
                        vec![
                            TokenKind::True,
                            TokenKind::False,
                            TokenKind::Number,
                            TokenKind::String,
                            TokenKind::Nil,
                        ],
                        kind,
                        self.location(),
                    )
                }
            },
        }
    }

    fn call(&mut self) -> (r: ExprTree)
        requires
            old(self).wf(),
        ensures
            final(self).wf(),
            final(self).same_but_parse(old(self)),
            (r@, final(self).parse_state()) == parse_expr(
                old(self).token_seq(),
                old(self).text(),
                old(self).parse_state(),
                7,
            ),
        decreases remaining(old(self).token_seq(), old(self).parse_state()), expr_rank(7) + 1,
    {
        self.primary()
    }

    /// A unary expression: `!` or `-` before a unary expression, or a call.
    fn unary(&mut self) -> (r: ExprTree)
        requires
            old(self).wf(),
        ensures
            final(self).wf(),
            final(self).same_but_parse(old(self)),
            (r@, final(self).parse_state()) == parse_expr(
                old(self).token_seq(),
                old(self).text(),
                old(self).parse_state(),
                6,
            ),
        decreases remaining(old(self).token_seq(), old(self).parse_state()), expr_rank(6),
    {
        if self.match_token(TokenKind::Bang) {
            let operand = self.unary();
            return Compiler::operator_node(Operator::Not, None, Some(operand));
        } else if self.match_token(TokenKind::Minus) {
            let operand = self.unary();
            return Compiler::operator_node(Operator::SignFlip, None, Some(operand));
        } else {
            return self.call();
        }
    }

    fn factor(&mut self) -> (r: ExprTree)
        requires
            old(self).wf(),
        ensures
            final(self).wf(),
            final(self).same_but_parse(old(self)),
            (r@, final(self).parse_state()) == parse_expr(
                old(self).token_seq(),
                old(self).text(),
                old(self).parse_state(),
                5,
            ),
        decreases remaining(old(self).token_seq(), old(self).parse_state()), expr_rank(5),
    {
        let ghost ts = self.token_seq();
        let ghost text = self.text();
        let ghost st0 = self.parse_state();
        let ghost goal = parse_expr(ts, text, st0, 5);
        let mut current = self.unary();
        proof {
            lemma_parse_moves(ts, text, st0, 6);
        }
        loop
            invariant
                self.wf(),
                self.same_but_parse(old(self)),
                ts == self.token_seq(),
                text == self.text(),
                st0 == old(self).parse_state(),
                goal == parse_expr(ts, text, st0, 5),
                remaining(ts, self.parse_state()) <= remaining(ts, st0),
                parse_loop(ts, text, self.parse_state(), 5, current@) == goal,
            decreases remaining(ts, self.parse_state()),
        {
            let ghost st = self.parse_state();
            if self.match_token(TokenKind::Star) {
                let right = self.unary();
                proof {
                    lemma_parse_moves(ts, text, advance(ts, st), 6);
                }
                current = Compiler::operator_node(Operator::Multiply, Some(current), Some(right));
            } else if self.match_token(TokenKind::Slash) {
                let right = self.unary();
                proof {
                    lemma_parse_moves(ts, text, advance(ts, st), 6);
                }
                current = Compiler::operator_node(Operator::Divide, Some(current), Some(right));
            } else {
                return current;
            }
        }
    }

    fn term(&mut self) -> (r: ExprTree)
        requires
            old(self).wf(),
        ensures
            final(self).wf(),
            final(self).same_but_parse(old(self)),
            (r@, final(self).parse_state()) == parse_expr(
                old(self).token_seq(),
                old(self).text(),
                old(self).parse_state(),
                4,
            ),
        decreases remaining(old(self).token_seq(), old(self).parse_state()), expr_rank(4),
    {
        let ghost ts = self.token_seq();
        let ghost text = self.text();
        let ghost st0 = self.parse_state();
        let ghost goal = parse_expr(ts, text, st0, 4);
        let mut current = self.factor();
        proof {
            lemma_parse_moves(ts, text, st0, 5);
        }
        loop
            invariant
                self.wf(),
                self.same_but_parse(old(self)),
                ts == self.token_seq(),
                text == self.text(),
                st0 == old(self).parse_state(),
                goal == parse_expr(ts, text, st0, 4),
                remaining(ts, self.parse_state()) <= remaining(ts, st0),
                parse_loop(ts, text, self.parse_state(), 4, current@) == goal,
            decreases remaining(ts, self.parse_state()),
        {
            let ghost st = self.parse_state();
            if self.match_token(TokenKind::Minus) {
                let right = self.factor();
                proof {
                    lemma_parse_moves(ts, text, advance(ts, st), 5);
                }
                current = Compiler::operator_node(Operator::Subtract, Some(current), Some(right));
            } else if self.match_token(TokenKind::Plus) {
                let right = self.factor();
                proof {
                    lemma_parse_moves(ts, text, advance(ts, st), 5);
                }
                current = Compiler::operator_node(Operator::Add, Some(current), Some(right));
            } else {
                return current;
            }
        }
    }

    fn comparison(&mut self) -> (r: ExprTree)
        requires
            old(self).wf(),
        ensures
            final(self).wf(),
            final(self).same_but_parse(old(self)),
            (r@, final(self).parse_state()) == parse_expr(
                old(self).token_seq(),
                old(self).text(),
                old(self).parse_state(),
                3,
            ),
        decreases remaining(old(self).token_seq(), old(self).parse_state()), expr_rank(3),
    {
        let ghost ts = self.token_seq();
        let ghost text = self.text();
        let ghost st0 = self.parse_state();
        let ghost goal = parse_expr(ts, text, st0, 3);
        let mut current = self.term();
        proof {
            lemma_parse_moves(ts, text, st0, 4);
        }
        loop
            invariant
                self.wf(),
                self.same_but_parse(old(self)),
                ts == self.token_seq(),
                text == self.text(),
                st0 == old(self).parse_state(),
                goal == parse_expr(ts, text, st0, 3),
                remaining(ts, self.parse_state()) <= remaining(ts, st0),
                parse_loop(ts, text, self.parse_state(), 3, current@) == goal,
            decreases remaining(ts, self.parse_state()),
        {
            let ghost st = self.parse_state();
            if self.match_token(TokenKind::Greater) {
                let right = self.term();
                proof {
                    lemma_parse_moves(ts, text, advance(ts, st), 4);
                }
                current = Compiler::operator_node(Operator::Greater, Some(current), Some(right));
            } else if self.match_token(TokenKind::GreaterEqual) {
                let right = self.term();
                proof {
                    lemma_parse_moves(ts, text, advance(ts, st), 4);
                }
                current = Compiler::operator_node(Operator::Less, Some(current), Some(right));
                current = Compiler::operator_node(Operator::Not, None, Some(current));
            } else if self.match_token(TokenKind::Less) {
                let right = self.term();
                proof {
                    lemma_parse_moves(ts, text, advance(ts, st), 4);
                }
                current = Compiler::operator_node(Operator::Less, Some(current), Some(right));
            } else if self.match_token(TokenKind::LessEqual) {
                let right = self.term();
                proof {
                    lemma_parse_moves(ts, text, advance(ts, st), 4);
                }
                current = Compiler::operator_node(Operator::Greater, Some(current), Some(right));
                current = Compiler::operator_node(Operator::Not, None, Some(current));
            } else {
                return current;
            }
        }
    }

    fn equality(&mut self) -> (r: ExprTree)
        requires
            old(self).wf(),
        ensures
            final(self).wf(),
            final(self).same_but_parse(old(self)),
            (r@, final(self).parse_state()) == parse_expr(
                old(self).token_seq(),
                old(self).text(),
                old(self).parse_state(),
                2,
            ),
        decreases remaining(old(self).token_seq(), old(self).parse_state()), expr_rank(2),
    {
        let ghost ts = self.token_seq();
        let ghost text = self.text();
        let ghost st0 = self.parse_state();
        let ghost goal = parse_expr(ts, text, st0, 2);
        let mut current = self.comparison();
        proof {
            lemma_parse_moves(ts, text, st0, 3);
        }
        loop
            invariant
                self.wf(),
                self.same_but_parse(old(self)),
                ts == self.token_seq(),
                text == self.text(),
                st0 == old(self).parse_state(),
                goal == parse_expr(ts, text, st0, 2),
                remaining(ts, self.parse_state()) <= remaining(ts, st0),
                parse_loop(ts, text, self.parse_state(), 2, current@) == goal,
            decreases remaining(ts, self.parse_state()),
        {
            let ghost st = self.parse_state();
            if self.match_token(TokenKind::EqualEqual) {
                let right = self.comparison();
                proof {
                    lemma_parse_moves(ts, text, advance(ts, st), 3);
                }
                current = Compiler::operator_node(Operator::Equal, Some(current), Some(right));
            } else if self.match_token(TokenKind::BangEqual) {
                let right = self.comparison();
                proof {
                    lemma_parse_moves(ts, text, advance(ts, st), 3);
                }
                current = Compiler::operator_node(Operator::Equal, Some(current), Some(right));
                current = Compiler::operator_node(Operator::Not, None, Some(current));
            } else {
                return current;
            }
        }
    }

    fn and(&mut self) -> (r: ExprTree)
        requires
            old(self).wf(),
        ensures
            final(self).wf(),
            final(self).same_but_parse(old(self)),
            (r@, final(self).parse_state()) == parse_expr(
                old(self).token_seq(),
                old(self).text(),
                old(self).parse_state(),
                1,
            ),
        decreases remaining(old(self).token_seq(), old(self).parse_state()), expr_rank(1),
    {
        let ghost ts = self.token_seq();
        let ghost text = self.text();
        let ghost st0 = self.parse_state();
        let ghost goal = parse_expr(ts, text, st0, 1);
        let mut current = self.equality();
        proof {
            lemma_parse_moves(ts, text, st0, 2);
        }
        loop
            invariant
                self.wf(),
                self.same_but_parse(old(self)),
                ts == self.token_seq(),
                text == self.text(),
                st0 == old(self).parse_state(),
                goal == parse_expr(ts, text, st0, 1),
                remaining(ts, self.parse_state()) <= remaining(ts, st0),
                parse_loop(ts, text, self.parse_state(), 1, current@) == goal,
            decreases remaining(ts, self.parse_state()),
        {
            let ghost st = self.parse_state();
            if self.match_token(TokenKind::And) {
                let right = self.equality();
                proof {
                    lemma_parse_moves(ts, text, advance(ts, st), 2);
                }
                let left = Compiler::short_circuit_node(Operator::And, current);
                current = Compiler::operator_node(Operator::And, Some(left), Some(right));
            } else {
                return current;
            }
        }
    }

    fn or(&mut self) -> (r: ExprTree)
        requires
            old(self).wf(),
        ensures
            final(self).wf(),
            final(self).same_but_parse(old(self)),
            (r@, final(self).parse_state()) == parse_expr(
                old(self).token_seq(),
                old(self).text(),
                old(self).parse_state(),
                0,
            ),
        decreases remaining(old(self).token_seq(), old(self).parse_state()), expr_rank(0),
    {
        let ghost ts = self.token_seq();
        let ghost text = self.text();
        let ghost st0 = self.parse_state();
        let ghost goal = parse_expr(ts, text, st0, 0);
        let mut current = self.and();
        proof {
            lemma_parse_moves(ts, text, st0, 1);
        }
        loop
            invariant
                self.wf(),
                self.same_but_parse(old(self)),
                ts == self.token_seq(),
                text == self.text(),
                st0 == old(self).parse_state(),
                goal == parse_expr(ts, text, st0, 0),
                remaining(ts, self.parse_state()) <= remaining(ts, st0),
                parse_loop(ts, text, self.parse_state(), 0, current@) == goal,
            decreases remaining(ts, self.parse_state()),
        {
            let ghost st = self.parse_state();
            if self.match_token(TokenKind::Or) {
                let right = self.and();
                proof {
                    lemma_parse_moves(ts, text, advance(ts, st), 1);
                }
                let left = Compiler::short_circuit_node(Operator::Or, current);
                current = Compiler::operator_node(Operator::Or, Some(left), Some(right));
            } else {
                return current;
            }
        }
    }


    fn assignment(&mut self) -> (r: ExprTree)
        requires
            old(self).wf(),
        ensures
            final(self).wf(),
            final(self).same_but_parse(old(self)),
            (r@, final(self).parse_state()) == parse_expr(
                old(self).token_seq(),
                old(self).text(),
                old(self).parse_state(),
                0,
            ),
        decreases remaining(old(self).token_seq(), old(self).parse_state()), expr_rank(0) + 1,
    {
        self.or()
    }

    fn expression(&mut self) -> (r: ExprTree)
        requires
            old(self).wf(),
        ensures
            final(self).wf(),
            final(self).same_but_parse(old(self)),
            (r@, final(self).parse_state()) == parse_expr(
                old(self).token_seq(),
                old(self).text(),
                old(self).parse_state(),
                0,
            ),
        decreases remaining(old(self).token_seq(), old(self).parse_state()), expr_rank(0) + 2,
    {
        self.assignment()
    }

    /// Compiles one expression-tree node at the current line; `pending`
    /// holds the operand positions of the jumps still open.
    fn emit(&mut self, node: ExpressionTreeNode, pending: &mut Vec<usize>) -> (r: Option<bool>)
        requires
            old(self).wf(),
            pending_in_code(old(self).code(), positions(old(pending)@)),
        ensures
            final(self).wf(),
            final(self).token_seq() == old(self).token_seq(),
            final(self).text() == old(self).text(),
            final(self).parse_state() == old(self).parse_state(),
            match emit_step(
                old(self).cstate().out,
                positions(old(pending)@),
                node@,
                location_of(old(self).parse_state().previous),
            ) {
                None => r is None,
                Some((out, pend, e)) => r == Some(e) && final(self).cstate().out == out
                    && positions(final(pending)@) == pend && pending_in_code(out.chunks, pend),
            },
    {
        match &node {
            ExpressionTreeNode::Branch(ExpressionBranch::ShortCircuit(op)) => {
                return self.open_jump(*op, pending);
            },
            ExpressionTreeNode::Branch(ExpressionBranch::Operator(op)) => {
                if *op == Operator::And || *op == Operator::Or {
                    return self.close_jump(pending);
                }
            },
            _ => {},
        }
        proof {
            lemma_emit_node_grows(
                old(self).cstate().out,
                node@,
                location_of(old(self).parse_state().previous),
            );
        }
        self.emit_plain(node)
    }

    /// Emits the code of the short cut of `op`, opening its jump.
    fn open_jump(&mut self, op: Operator, pending: &mut Vec<usize>) -> (r: Option<bool>)
        requires
            old(self).wf(),
            pending_in_code(old(self).code(), positions(old(pending)@)),
        ensures
            final(self).wf(),
            final(self).token_seq() == old(self).token_seq(),
            final(self).text() == old(self).text(),
            final(self).parse_state() == old(self).parse_state(),
            match emit_step(
                old(self).cstate().out,
                positions(old(pending)@),
                NodeView::ShortCircuit(op),
                location_of(old(self).parse_state().previous),
            ) {
                None => r is None,
                Some((out, pend, e)) => r == Some(e) && final(self).cstate().out == out
                    && positions(final(pending)@) == pend && pending_in_code(out.chunks, pend),
            },
    {
        if op != Operator::And && op != Operator::Or {
            return None;
        }
        let ghost line = location_of(self.parse_state().previous).line;
        let ghost old_code = self.code();
        let is_or = op == Operator::Or;
        let start = self.chunks.len();
        let c = self.chunk(OpCode::JumpIfFalse.to_byte());
        self.chunks.push(c);
        let c = self.chunk(0);
        self.chunks.push(c);
        if is_or {
            let c = self.chunk(3);
            self.chunks.push(c);
            let c = self.chunk(OpCode::Jump.to_byte());
            self.chunks.push(c);
            let c = self.chunk(0);
            self.chunks.push(c);
            let c = self.chunk(0);
            self.chunks.push(c);
        } else {
            let c = self.chunk(0);
            self.chunks.push(c);
        }
        let c = self.chunk(OpCode::Pop.to_byte());
        self.chunks.push(c);
        assert(self.code() =~= old_code + short_circuit_code(line, is_or));
        let operand = self.chunks.len() - 3;
        pending.push(operand);
        proof {
            let before = positions(old(pending)@);
            let pend = positions(pending@);
            assert(pend =~= before.push(old_code.len() + open_jump_operand(is_or)));
            assert forall|k: int| 0 <= k < pend.len() implies 1 <= #[trigger] pend[k] && pend[k] + 2
                <= self.code().len() by {
                if k < before.len() {
                    assert(pend[k] == before[k]);
                }
            }
            assert forall|k: int, l: int| 0 <= k < l < pend.len() implies #[trigger] pend[k]
                < #[trigger] pend[l] by {
                assert(pend[k] == before[k]);
                if l < before.len() {
                    assert(pend[l] == before[l]);
                }
            }
        }
        Some(false)
    }

    /// Fills in the innermost open jump to land here.
    fn close_jump(&mut self, pending: &mut Vec<usize>) -> (r: Option<bool>)
        requires
            old(self).wf(),
            pending_in_code(old(self).code(), positions(old(pending)@)),
        ensures
            final(self).wf(),
            final(self).token_seq() == old(self).token_seq(),
            final(self).text() == old(self).text(),
            final(self).parse_state() == old(self).parse_state(),
            match emit_step(
                old(self).cstate().out,
                positions(old(pending)@),
                NodeView::Operator(Operator::And),
                location_of(old(self).parse_state().previous),
            ) {
                None => r is None,
                Some((out, pend, e)) => r == Some(e) && final(self).cstate().out == out
                    && positions(final(pending)@) == pend && pending_in_code(out.chunks, pend),
            },
            emit_step(
                old(self).cstate().out,
                positions(old(pending)@),
                NodeView::Operator(Operator::And),
                location_of(old(self).parse_state().previous),
            ) == emit_step(
                old(self).cstate().out,
                positions(old(pending)@),
                NodeView::Operator(Operator::Or),
                location_of(old(self).parse_state().previous),
            ),
    {
        let count = pending.len();
        if count == 0 {
            return None;
        }
        let p = pending[count - 1];
        assert(positions(pending@)[count - 1] == p);
        let ghost line = location_of(self.parse_state().previous).line;
        let ghost old_code = self.code();
        let c = self.chunk(OpCode::JumpIfFalse.to_byte());
        self.chunks.push(c);
        let c = self.chunk(0);
        self.chunks.push(c);
        let c = self.chunk(0);
        self.chunks.push(c);
        assert(self.code() =~= old_code + boolean_check_code(line));
        let len = self.chunks.len();
        let d = len - (p + 2);
        let ghost old_errs = self.errs@;
        if d > MAX_JUMP {
            let e = self.error(CompileErrKind::TooMuchCodeToJump);
            self.errs.push(e);
            assert(error_views(self.errs@) =~= error_views(old_errs).push(e@));
        } else {
            let hi_line = self.chunks[p].line;
            let lo_line = self.chunks[p + 1].line;
            let hi = (d / 256) as u8;
            let lo = (d % 256) as u8;
            self.chunks.set(p, Chunk { line: hi_line, op: hi });
            self.chunks.set(p + 1, Chunk { line: lo_line, op: lo });
        }
        pending.pop();
        proof {
            let before = positions(old(pending)@);
            let pend = positions(pending@);
            assert(pend =~= before.drop_last());
            assert forall|k: int| 0 <= k < pend.len() implies 1 <= #[trigger] pend[k] && pend[k] + 2
                <= self.code().len() by {
                assert(pend[k] == before[k]);
            }
            assert forall|k: int, l: int| 0 <= k < l < pend.len() implies #[trigger] pend[k]
                < #[trigger] pend[l] by {
                assert(pend[k] == before[k]);
                assert(pend[l] == before[l]);
            }
        }
        Some(false)
    }

    /// Compiles a node other than the parts of `and` and `or`.
    fn emit_plain(&mut self, node: ExpressionTreeNode) -> (r: Option<bool>)
        requires
            old(self).wf(),
        ensures
            final(self).wf(),
            final(self).token_seq() == old(self).token_seq(),
            final(self).text() == old(self).text(),
            final(self).parse_state() == old(self).parse_state(),
            match emit_node(
                old(self).cstate().out,
                node@,
                location_of(old(self).parse_state().previous),
            ) {
                None => r is None,
                Some((out, e)) => r == Some(e) && final(self).cstate().out == out,
            },
    {
        let ghost old_chunks = self.chunks@;
        let ghost old_values = self.values@;
        let ghost old_errs = self.errs@;
        match node {
            ExpressionTreeNode::Branch(branch) => match branch {
                ExpressionBranch::ShortCircuit(_) => None,
                ExpressionBranch::Operator(op) => {
                    if !op.is_compiled() {
                        return None;
                    }
                    let codes = op.to_bytecodes();
                    let mut k: usize = 0;
                    while k < codes.len()
                        invariant
                            self.wf(),
                            self.token_seq() == old(self).token_seq(),
                            self.text() == old(self).text(),
                            self.parse_state() == old(self).parse_state(),
                            self.values@ == old_values,
                            self.errs@ == old_errs,
                            codes@ == seq![operator_opcode(op).unwrap()],
                            0 <= k <= 1,
                            k == 0 ==> self.chunks@ == old_chunks,
                            k == 1 ==> self.chunks@ == old_chunks.push(
                                Chunk {
                                    line: location_of(self.parse_state().previous).line,
                                    op: opcode_byte(operator_opcode(op).unwrap()),
                                },
                            ),
                        decreases 1 - k,
                    {
                        let c = self.chunk(codes[k].to_byte());
                        self.chunks.push(c);
                        k = k + 1;
                    }
                    Some(false)
                },
            },
            ExpressionTreeNode::Leaf(leaf) => match leaf {
                ExpressionLeaf::Value(value) => {
                    let c = self.chunk(OpCode::Constant.to_byte());
                    self.chunks.push(c);
                    if self.values.len() == self.values.capacity() {
                        let e = self.error(CompileErrKind::TooManyValues);
                        self.errs.push(e);
                        assert(error_views(self.errs@) =~= error_views(old_errs).push(e@));
                    } else {
                        let c = self.chunk(self.values.len() as u8);
                        self.chunks.push(c);
                        let ghost v = value@;
                        // The length was checked against the capacity, so the push succeeds.
                        let pushed = self.values.push(value);
                        assert(value_views(self.values@) =~= value_views(old_values).push(v));
                    }
                    Some(false)
                },
                ExpressionLeaf::Error(err) => {
                    let e = self.error(CompileErrKind::UnexpectedToken(err));
                    self.errs.push(e);
                    assert(error_views(self.errs@) =~= error_views(old_errs).push(e@));
                    Some(true)
                },
                ExpressionLeaf::Call => None,
            },
        }
    }

    /// Compiles an expression, node by node in postorder. `Some(Ok(()))`
    /// when it held no syntax error; `None` where the compiler has no
    /// translation yet.
    fn expression_statement(&mut self) -> (r: Option<Result<(), ()>>)
        requires
            old(self).wf(),
        ensures
            final(self).wf(),
            final(self).token_seq() == old(self).token_seq(),
            final(self).text() == old(self).text(),
            match expression_statement_spec(
                old(self).token_seq(),
                old(self).text(),
                old(self).cstate(),
            ) {
                None => r is None,
                Some((ok, cs)) => r == (if ok {
                    Some(Ok::<(), ()>(()))
                } else {
                    Some(Err::<(), ()>(()))
                }) && final(self).cstate() == cs,
            },
    {
        let ghost ts = self.token_seq();
        let ghost text = self.text();
        let ghost cs0 = self.cstate();
        let expr = self.expression();
        let ghost loc = location_of(self.parse_state().previous);
        let ghost tree = expr@;
        let ghost all = postorder(tree);
        let mut nodes = dfs_postorder(to_binary(expr));
        let ghost goal = emit_nodes(all, cs0.out, seq![], loc);
        let mut had_err = false;
        let mut pending: Vec<usize> = Vec::new();
        assert(positions(pending@) =~= Seq::<int>::empty());
        assert(pending_in_code(self.code(), positions(pending@)));
        while nodes.len() > 0
            invariant
                self.wf(),
                self.token_seq() == ts,
                self.text() == text,
                ts == old(self).token_seq(),
                text == old(self).text(),
                cs0 == old(self).cstate(),
                parse_expr(ts, text, cs0.parse, 0) == (tree, self.parse_state()),
                all == postorder(tree),
                loc == location_of(self.parse_state().previous),
                goal == emit_nodes(all, cs0.out, seq![], loc),
                pending_in_code(self.code(), positions(pending@)),
                match emit_nodes(node_views(nodes@), self.cstate().out, positions(pending@), loc) {
                    None => goal is None,
                    Some((out, pend, e)) => goal == Some((out, pend, e || had_err)),
                },
            decreases nodes@.len(),
        {
            let ghost before = node_views(nodes@);
            let node = nodes.remove(0);
            assert(node_views(nodes@) =~= before.drop_first());
            match self.emit(node, &mut pending) {
                None => {
                    return None;
                },
                Some(e) => {
                    had_err = had_err || e;
                },
            }
        }
        if had_err {
            Some(Err(()))
        } else {
            Some(Ok(()))
        }
    }

    /// Compiles one statement.
    fn statement(&mut self) -> (r: Option<Result<(), ()>>)
        requires
            old(self).wf(),
        ensures
            final(self).wf(),
            final(self).token_seq() == old(self).token_seq(),
            final(self).text() == old(self).text(),
            match statement_spec(old(self).token_seq(), old(self).text(), old(self).cstate()) {
                None => r is None,
                Some((ok, cs)) => r == (if ok {
                    Some(Ok::<(), ()>(()))
                } else {
                    Some(Err::<(), ()>(()))
                }) && final(self).cstate() == cs,
            },
    {
        let ghost old_errs = self.errs@;
        if self.match_token(TokenKind::Class) {
            return None;
        } else if self.match_token(TokenKind::Fun) {
            return None;
        } else if self.match_token(TokenKind::Print) {
            match self.expression_statement() {
                None => {
                    return None;
                },
                Some(Err(())) => {
                    return Some(Err(()));
                },
                Some(Ok(())) => {},
            }
            let c = self.chunk(OpCode::Print.to_byte());
            self.chunks.push(c);
            if !self.match_token(TokenKind::Semicolon) {
                let ghost before = self.errs@;
                let e = self.error(CompileErrKind::MissingSemicolon);
                self.errs.push(e);
                assert(error_views(self.errs@) =~= error_views(before).push(e@));
                return Some(Err(()));
            }
            return Some(Ok(()));
        } else if self.match_token(TokenKind::If) {
            return None;
        } else {
            match self.expression_statement() {
                None => {
                    return None;
                },
                Some(Err(())) => {
                    return Some(Err(()));
                },
                Some(Ok(())) => {},
            }
            if !self.match_token(TokenKind::Semicolon) {
                let ghost before = self.errs@;
                let e = self.error(CompileErrKind::MissingSemicolon);
                self.errs.push(e);
                assert(error_views(self.errs@) =~= error_views(before).push(e@));
                return Some(Err(()));
            }
            let c = self.chunk(OpCode::Pop.to_byte());
            self.chunks.push(c);
            return Some(Ok(()));
        }
    }

    /// Compiles statements until the tokens run out or one fails.
    fn declaration(&mut self) -> (r: Option<Result<(), ()>>)
        requires
            old(self).wf(),
        ensures
            final(self).wf(),
            final(self).token_seq() == old(self).token_seq(),
            final(self).text() == old(self).text(),
            match declaration_spec(old(self).token_seq(), old(self).text(), old(self).cstate()) {
                None => r is None,
                Some((ok, cs)) => r == (if ok {
                    Some(Ok::<(), ()>(()))
                } else {
                    Some(Err::<(), ()>(()))
                }) && final(self).cstate() == cs,
            },
    {
        let ghost ts = self.token_seq();
        let ghost text = self.text();
        let ghost goal = declaration_spec(ts, text, self.cstate());
        while self.next < self.tokens.len()
            invariant
                self.wf(),
                self.token_seq() == ts,
                self.text() == text,
                ts == old(self).token_seq(),
                text == old(self).text(),
                goal == declaration_spec(ts, text, old(self).cstate()),
                declaration_spec(ts, text, self.cstate()) == goal,
            decreases remaining(ts, self.parse_state()),
        {
            let ghost cs = self.cstate();
            proof {
                lemma_statement_moves(ts, text, cs);
            }
            match self.statement() {
                None => {
                    return None;
                },
                Some(Err(())) => {
                    return Some(Err(()));
                },
                Some(Ok(())) => {},
            }
        }
        Some(Ok(()))
    }

    /// Takes tokens for as long as `predicate` holds of the next one.
    fn match_tokens_while<P: Fn(LoxToken) -> bool>(
        &mut self,
        predicate: &P,
        Ghost(pred): Ghost<spec_fn(LoxToken) -> bool>,
    )
        requires
            old(self).wf(),
            forall|t: LoxToken| predicate.requires((t,)),
            forall|t: LoxToken, b: bool| predicate.ensures((t,), b) ==> b == pred(t),
        ensures
            final(self).wf(),
            final(self).same_but_parse(old(self)),
            final(self).parse_state() == skip_tokens(
                old(self).token_seq(),
                old(self).parse_state(),
                pred,
            ),
    {
        let ghost ts = self.token_seq();
        let ghost goal = skip_tokens(ts, self.parse_state(), pred);
        while self.match_token_if(predicate, Ghost(pred))
            invariant
                self.wf(),
                self.same_but_parse(old(self)),
                ts == self.token_seq(),
                goal == skip_tokens(ts, old(self).parse_state(), pred),
                skip_tokens(ts, self.parse_state(), pred) == goal,
                forall|t: LoxToken| predicate.requires((t,)),
                forall|t: LoxToken, b: bool| predicate.ensures((t,), b) ==> b == pred(t),
            decreases remaining(ts, self.parse_state()),
        {
        }
    }

    /// Skips to the next token that starts a statement.
    fn panic_mode_recovery(&mut self)
        requires
            old(self).wf(),
        ensures
            final(self).wf(),
            final(self).same_but_parse(old(self)),
            final(self).parse_state() == recover(old(self).token_seq(), old(self).parse_state()),
    {
        let not_start = |token: LoxToken| -> (b: bool)
            ensures
                b == !starts_statement(token.kind),
            {
                match token.kind() {
                    // These signal the start of a statement.
                    TokenKind::Class | TokenKind::Fun | TokenKind::Var | TokenKind::For
                    | TokenKind::If | TokenKind::Print | TokenKind::Return => false,
                    _ => true,
                }
            };
        self.match_tokens_while(&not_start, Ghost(not_statement_start()));
    }

    /// A compiler for the tokens of `source`.
    fn new(f_type: FunctionType, source_code: &str, tokens: Vec<LoxToken>) -> (r: Compiler)
        requires
            strings_quoted(tokens@, char_table(source_code@)),
        ensures
            r.wf(),
            r.token_seq() == tokens@,
            r.text() == char_table(source_code@),
            r.cstate() == initial_state(),
    {
        let r = Compiler {
            f_type,
            previous: None,
            current: None,
            tokens,
            next: 0,
            source_code: char_indices(source_code),
            chunks: Vec::new(),
            errs: Vec::new(),
            state: CompilerState::Declaration,
            values: FixedVec::new(),
        };
        assert(r.cstate().out.values =~= Seq::<ValueView>::empty());
        assert(r.cstate().out.errs =~= Seq::<CompileErrView>::empty());
        r
    }

    /// Compiles every declaration; a failed one is followed by a recovery.
    /// The code ends with a `Return`.
    fn compile(self) -> (r: Option<Result<(Vec<Chunk>, FixedVec<Value, STACK_MAX>), Vec<CompileErr>>>)
        requires
            self.wf(),
        ensures
            compiled_view(r) == compile_from(self.token_seq(), self.text(), self.cstate()),
    {
        let ghost ts = self.token_seq();
        let ghost text = self.text();
        let ghost goal = compile_loop(ts, text, self.cstate());
        let ghost cs0 = self.cstate();
        let mut this = self;
        while this.next < this.tokens.len()
            invariant
                this.wf(),
                this.token_seq() == ts,
                this.text() == text,
                compile_loop(ts, text, this.cstate()) == goal,
                goal == compile_loop(ts, text, cs0),
                ts == self.token_seq(),
                text == self.text(),
                cs0 == self.cstate(),
            decreases remaining(ts, this.parse_state()),
        {
            let ghost cs = this.cstate();
            proof {
                lemma_declaration_moves(ts, text, cs);
            }
            match this.declaration() {
                None => {
                    assert(declaration_spec(ts, text, cs) is None);
                    assert(compile_loop(ts, text, cs) is None);
                    return None;
                },
                Some(Ok(())) => {},
                Some(Err(())) => {
                    proof {
                        lemma_skip_tokens_moves(ts, this.parse_state(), not_statement_start());
                    }
                    this.panic_mode_recovery();
                },
            }
        }
        let c = this.chunk(OpCode::Return.to_byte());
        this.chunks.push(c);
        if this.errs.len() > 0 {
            Some(Err(this.errs))
        } else {
            Some(Ok((this.chunks, this.values)))
        }
    }
}

/// The tokenizer's results for a source text.
pub open spec fn source_results(source: Seq<char>) -> Seq<Result<LoxToken, LoxParseErr>> {
    lex_from(char_table(source), vstd::utf8::encode_utf8(source).len() as usize, 0)
}

/// Runs the tokenizer over the whole source: whether it reported an error,
/// the errors after the first, and the tokens.
fn tokenize_source(source: &str) -> (r: (bool, Vec<LoxParseErr>, Vec<LoxToken>))
    ensures
        r.0 == (parse_errors(source_results(source@)).len() > 0),
        r.0 ==> r.1@ == parse_errors(source_results(source@)).drop_first(),
        r.2@ == ok_tokens(source_results(source@)),
        vstd::utf8::encode_utf8(source@).len() <= usize::MAX,
{
    let mut token_stream = Tokenizer::new(source);
    let ghost t = token_stream.text();
    let ghost bl = token_stream.byte_length();
    let mut found_err = false;
    let mut errs: Vec<LoxParseErr> = Vec::new();
    let mut tokens: Vec<LoxToken> = Vec::new();
    let ghost mut produced: Seq<Result<LoxToken, LoxParseErr>> = seq![];
    loop
        invariant
            token_stream.wf(),
            token_stream.text() == t,
            token_stream.byte_length() == bl,
            t == char_table(source@),
            bl as nat == vstd::utf8::encode_utf8(source@).len(),
            0 <= token_stream.index() <= t.len(),
            lex_from(t, bl, 0) == produced + lex_from(t, bl, token_stream.index()),
            tokens@ == ok_tokens(produced),
            found_err == (parse_errors(produced).len() > 0),
            found_err ==> errs@ == parse_errors(produced).drop_first(),
            !found_err ==> errs@.len() == 0,
        ensures
            lex_from(t, bl, 0) == produced,
            t == char_table(source@),
            bl as nat == vstd::utf8::encode_utf8(source@).len(),
            tokens@ == ok_tokens(produced),
            found_err == (parse_errors(produced).len() > 0),
            found_err ==> errs@ == parse_errors(produced).drop_first(),
        decreases t.len() - token_stream.index(),
    {
        let ghost i = token_stream.index();
        proof {
            lemma_lex_at_advances(t, bl, i);
        }
        let next = token_stream.next();
        match next {
            None => {
                assert(produced + lex_from(t, bl, i) =~= produced);
                break ;
            },
            Some(result) => {
                assert(lex_from(t, bl, i) == seq![result] + lex_from(t, bl, token_stream.index()));
                assert(produced + lex_from(t, bl, i) =~= produced.push(result) + lex_from(
                    t,
                    bl,
                    token_stream.index(),
                ));
                let ghost before = produced;
                proof {
                    produced = produced.push(result);
                    assert(produced.drop_last() =~= before);
                }
                match result {
                    Err(err) => {
                        assert(parse_errors(produced) == parse_errors(before).push(err));
                        if !found_err {
                            found_err = true;
                            assert(errs@ =~= parse_errors(produced).drop_first());
                        } else {
                            let ghost prior = errs@;
                            errs.push(err);
                            assert(parse_errors(before).push(err).drop_first() =~= prior.push(err));
                        }
                    },
                    Ok(token) => {
                        tokens.push(token);
                    },
                }
            },
        }
    }
    assert(source_results(source@) == produced);
    (found_err, errs, tokens)
}

/// The tokenizer's errors as compile errors at their starts.
fn parse_errors_to_compile(errs: Vec<LoxParseErr>) -> (r: Vec<CompileErr>)
    ensures
        error_views(r@) == errs@.map_values(|e: LoxParseErr| parse_error_view(e)),
{
    let mut out: Vec<CompileErr> = Vec::new();
    let mut k: usize = 0;
    while k < errs.len()
        invariant
            0 <= k <= errs@.len(),
            error_views(out@) =~= errs@.take(k as int).map_values(
                |e: LoxParseErr| parse_error_view(e),
            ),
        decreases errs@.len() - k,
    {
        let err = errs[k];
        let ghost prior = out@;
        let e = CompileErr { kind: CompileErrKind::Parse(err), location: err.get_start() };
        out.push(e);
        assert(error_views(out@) =~= error_views(prior).push(e@));
        k = k + 1;
        assert(errs@.take(k as int) =~= errs@.take(k - 1).push(err));
    }
    assert(errs@.take(k as int) =~= errs@);
    out
}

/// The string tokens of a source text span their quotes.
proof fn lemma_source_strings_quoted(source: Seq<char>)
    requires
        vstd::utf8::encode_utf8(source).len() <= usize::MAX,
    ensures
        strings_quoted(ok_tokens(source_results(source)), char_table(source)),
{
    let t = char_table(source);
    let bl = vstd::utf8::encode_utf8(source).len() as usize;
    let rs = source_results(source);
    let tokens = ok_tokens(rs);
    lemma_lex_from_strings(t, bl, 0);
    lemma_ok_tokens_come_from(rs);
    assert forall|k: int|
        0 <= k < tokens.len() && (#[trigger] tokens[k]).kind == TokenKind::String implies lexeme(
        t,
        tokens[k],
    ).len() >= 2 by {
        let m = choose|m: int|
            0 <= m < rs.len() && rs[m] == Ok::<LoxToken, LoxParseErr>(#[trigger] ok_tokens(rs)[k]);
        lemma_quoted_lexeme(source, bl, tokens[k]);
    }
}

/// The separator before the `i`-th name of a list whose last index is
/// `last`: none before the first, `, or ` before the last, `, ` otherwise.
pub open spec fn list_separator(i: int, last: int) -> Seq<char> {
    if i == 0 {
        ""@
    } else if i == last {
        ", or "@
    } else {
        ", "@
    }
}

/// The names of the first `n` kinds of `ks`, separated for a list whose last
/// index is `last`.
pub open spec fn kinds_text(ks: Seq<TokenKind>, n: int, last: int) -> Seq<char>
    decreases n,
{
    if n <= 0 {
        ""@
    } else {
        kinds_text(ks, n - 1, last) + list_separator(n - 1, last) + token_kind_name(ks[n - 1])
    }
}

/// The message of an unexpected token.
pub open spec fn unexpected_text(u: UnexpectedView) -> Seq<char> {
    "Unexpected token. Found "@ + token_kind_name(u.actual) + ", but expected: "@ + kinds_text(
        u.expected,
        u.expected.len() as int,
        u.expected.len() - 1,
    )
}

impl Unexpected {
    /// The message: which kind was found and the kinds that were expected.
    pub fn describe(&self) -> (r: String)
        requires
            self.expected@.len() > 0,
        ensures
            r@ == unexpected_text(self@),
    {
        let mut expected_str = String::new();
        let last = self.expected.len() - 1;
        let mut i: usize = 0;
        proof {
            reveal_strlit("");
        }
        assert(expected_str@ =~= kinds_text(self.expected@, 0, last as int));
        while i < self.expected.len()
            invariant
                0 <= i <= self.expected@.len(),
                last == self.expected@.len() - 1,
                expected_str@ == kinds_text(self.expected@, i as int, last as int),
            decreases self.expected@.len() - i,
        {
            if i != 0 {
                if i == last {
                    expected_str.append(", or ");
                } else {
                    expected_str.append(", ");
                }
            } else {
                proof {
                    reveal_strlit("");
                }
                assert(list_separator(0, last as int) =~= Seq::<char>::empty());
            }
            expected_str.append(self.expected[i].name());
            i = i + 1;
        }
        let mut s = String::new();
        s.append("Unexpected token. Found ");
        s.append(self.actual.name());
        s.append(", but expected: ");
        s.append(expected_str.as_str());
        s
    }
}

/// The precedence levels of the grammar, lowest first.
#[derive(PartialEq, PartialOrd, Eq, Ord, Clone, Copy, Debug, Structural)]
pub enum Precedence {
    /// No precedence at all.
    Lowest,
    Assignment,
    Or,
    And,
    Equality,
    Comparison,
    Term,
    Factor,
    Unary,
    Call,
    Primary,
}

/// The level a number stands for, from `Lowest` at 0 to `Primary` at 10.
pub open spec fn precedence_of(v: u8) -> Option<Precedence> {
    if v == 0 {
        Some(Precedence::Lowest)
    } else if v == 1 {
        Some(Precedence::Assignment)
    } else if v == 2 {
        Some(Precedence::Or)
    } else if v == 3 {
        Some(Precedence::And)
    } else if v == 4 {
        Some(Precedence::Equality)
    } else if v == 5 {
        Some(Precedence::Comparison)
    } else if v == 6 {
        Some(Precedence::Term)
    } else if v == 7 {
        Some(Precedence::Factor)
    } else if v == 8 {
        Some(Precedence::Unary)
    } else if v == 9 {
        Some(Precedence::Call)
    } else if v == 10 {
        Some(Precedence::Primary)
    } else {
        None
    }
}

impl Precedence {
    /// The level `value` stands for; the value itself when it stands for none.
    pub fn try_from(value: u8) -> (r: Result<Precedence, u8>)
        ensures
            r == (match precedence_of(value) {
                Some(p) => Ok(p),
                None => Err(value),
            }),
    {
        match value {
            0 => Ok(Precedence::Lowest),
            1 => Ok(Precedence::Assignment),
            2 => Ok(Precedence::Or),
            3 => Ok(Precedence::And),
            4 => Ok(Precedence::Equality),
            5 => Ok(Precedence::Comparison),
            6 => Ok(Precedence::Term),
            7 => Ok(Precedence::Factor),
            8 => Ok(Precedence::Unary),
            9 => Ok(Precedence::Call),
            10 => Ok(Precedence::Primary),
            other => Err(other),
        }
    }
}

/// A local variable of a function being compiled.
pub struct Local {
    pub name: LoxToken,
    pub depth: usize,
    pub is_captured: bool,
}

/// A statement of the language.
pub enum Statement {
    Expression(ExprTree),
}

/// Compiles a source text: tokenizes it, and when the tokenizer reports no
/// error, compiles the tokens. `None` where the source needs a part of the
/// language that the compiler does not translate yet (classes, functions,
/// `if`, assignment, calls).
pub fn try_compile(source: &str) -> (r: Option<
    Result<(Vec<Chunk>, FixedVec<Value, STACK_MAX>), Vec<CompileErr>>,
>)
    ensures
        compiled_view(r) == compile_source(source@),
{
    let (found_err, errs, tokens) = tokenize_source(source);
    if found_err {
        // Found an error: go no further.
        return Some(Err(parse_errors_to_compile(errs)));
    }
    proof {
        lemma_source_strings_quoted(source@);
    }
    let compiler = Compiler::new(FunctionType::Script, source, tokens);
    compiler.compile()
}

/// Compiles a source text that uses only the parts of the language the
/// compiler translates.
pub fn compile(source: &str) -> (r: Result<(Vec<Chunk>, FixedVec<Value, STACK_MAX>), Vec<CompileErr>>)
    requires
        compile_source(source@) is Some,
    ensures
        compiled_view(Some(r)) == compile_source(source@),
{
    match try_compile(source) {
        Some(r) => r,
        None => {
            proof {
                assert(false);
            }
            Err(Vec::new())
        },
    }
}

} // verus!
