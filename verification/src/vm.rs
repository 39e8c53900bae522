use vstd::prelude::*;
use crate::chunk::{Chunk, OpCode, invalid_opcode_message, opcode_of_byte};
use crate::fixed_vec::FixedVec;
use crate::object::{Object, rc_str_from};
use crate::value::{Value, ValueView};

verus! {

/// The largest number of values the machine's stacks hold.
pub const STACK_MAX: usize = 255;

/// The largest number of instructions a run executes.
pub const MAX_STEPS: usize = 1_000_000;

/// Why a run stopped short.
#[derive(Debug)]
pub enum VMErr {
    RuntimeErr(RunTimeErr),
    Panic(String),
    OutOfIterations,
}

/// An error of the running program, at a line of its source.
#[derive(Debug)]
pub struct RunTimeErr {
    pub line: usize,
    pub kind: RunTimeErrKind,
}

#[derive(Clone, Copy, Debug, PartialEq, Eq, Structural)]
pub enum RunTimeErrKind {
    ArithmeticOnNonNumber,
    ComparisonOnNonNumber,
    BooleanOperationOnObject,
    BooleanOperationOnNumber,
    BooleanOperationOnNil,
}

/// What a [`VMErr`] holds.
pub enum VMErrView {
    RuntimeErr { line: usize, kind: RunTimeErrKind },
    Panic(Seq<char>),
    OutOfIterations,
}

impl View for VMErr {
    type V = VMErrView;

    open spec fn view(&self) -> VMErrView {
        match self {
            VMErr::RuntimeErr(e) => VMErrView::RuntimeErr { line: e.line, kind: e.kind },
            VMErr::Panic(msg) => VMErrView::Panic(msg@),
            VMErr::OutOfIterations => VMErrView::OutOfIterations,
        }
    }
}

/// The arithmetic the machine asks its caller to carry out on two numbers.
#[derive(Clone, Copy, Debug, PartialEq, Eq, Structural)]
pub enum Arithmetic {
    Add,
    Subtract,
    Multiply,
    Divide,
}

/// The comparisons the machine asks its caller to carry out on two numbers.
#[derive(Clone, Copy, Debug, PartialEq, Eq, Structural)]
pub enum Comparison {
    Equal,
    Greater,
    Less,
}

/// What one step of the machine did, or what it needs. Numbers are held as
/// the text of their value: the caller computes with them, and hands the
/// result back through [`VM::resume`].
pub enum Step {
    /// The instruction was carried out.
    Continue,
    /// The caller is to compute `left op right` and resume with the number.
    Arithmetic { op: Arithmetic, left: String, right: String },
    /// The caller is to compare `left` and `right` and resume with the boolean.
    Compare { comparison: Comparison, left: String, right: String },
    /// The caller is to negate the number and resume with the result.
    Negate { operand: String },
    /// The program prints the value, which was popped from the stack.
    Print(Value),
    /// The program returned; the value is the one at the bottom of the stack.
    Return(Value),
    /// The run failed.
    Failed(VMErr),
    /// The machine reached an instruction it does not carry out yet, an empty
    /// stack, or a place outside its code or constants.
    Halted,
}

/// What a [`Step`] holds.
pub enum StepView {
    Continue,
    Arithmetic { op: Arithmetic, left: Seq<char>, right: Seq<char> },
    Compare { comparison: Comparison, left: Seq<char>, right: Seq<char> },
    Negate { operand: Seq<char> },
    Print(ValueView),
    Return(ValueView),
    Failed(VMErrView),
    Halted,
}

impl View for Step {
    type V = StepView;

    open spec fn view(&self) -> StepView {
        match self {
            Step::Continue => StepView::Continue,
            Step::Arithmetic { op, left, right } => StepView::Arithmetic {
                op: *op,
                left: left@,
                right: right@,
            },
            Step::Compare { comparison, left, right } => StepView::Compare {
                comparison: *comparison,
                left: left@,
                right: right@,
            },
            Step::Negate { operand } => StepView::Negate { operand: operand@ },
            Step::Print(v) => StepView::Print(v@),
            Step::Return(v) => StepView::Return(v@),
            Step::Failed(e) => StepView::Failed(e@),
            Step::Halted => StepView::Halted,
        }
    }
}

/// The state of the machine.
pub struct MachineState {
    pub code: Seq<Chunk>,
    pub constants: Seq<ValueView>,
    pub stack: Seq<ValueView>,
    pub ip: int,
    pub steps_left: nat,
}

/// `v` pushed onto the stack; a push onto a full stack is lost.
pub open spec fn push_value(stack: Seq<ValueView>, v: ValueView) -> Seq<ValueView> {
    if stack.len() < STACK_MAX {
        stack.push(v)
    } else {
        stack
    }
}

pub open spec fn with_stack(s: MachineState, stack: Seq<ValueView>) -> MachineState {
    MachineState { stack, ..s }
}

/// The stack replaced and the instruction pointer moved past a one-byte instruction.
pub open spec fn next_with(s: MachineState, stack: Seq<ValueView>) -> MachineState {
    MachineState { stack, ip: s.ip + 1, ..s }
}

/// A runtime error at the line of the current instruction.
pub open spec fn runtime_failure(s: MachineState, kind: RunTimeErrKind) -> StepView {
    StepView::Failed(VMErrView::RuntimeErr { line: s.code[s.ip].line, kind })
}

pub open spec fn is_number(v: ValueView) -> bool {
    v is Number
}

pub open spec fn number_text(v: ValueView) -> Seq<char> {
    match v {
        ValueView::Number(t) => t,
        _ => seq![],
    }
}

/// `==`: two nils, two equal booleans, or two numbers the caller finds
/// equal. Two objects are never the same object, as each stack slot holds
/// its own. An object compared with anything else pushes no result at all.
pub open spec fn equal_step(s: MachineState) -> (MachineState, StepView) {
    if s.stack.len() < 2 {
        (with_stack(s, seq![]), StepView::Halted)
    } else {
        let b = s.stack.last();
        let a = s.stack.drop_last().last();
        let rest = s.stack.drop_last().drop_last();
        match b {
            ValueView::Nil => (
                next_with(s, push_value(rest, ValueView::Boolean(a is Nil))),
                StepView::Continue,
            ),
            ValueView::Boolean(bb) => (
                next_with(
                    s,
                    push_value(
                        rest,
                        ValueView::Boolean(
                            match a {
                                ValueView::Boolean(aa) => aa == bb,
                                _ => false,
                            },
                        ),
                    ),
                ),
                StepView::Continue,
            ),
            ValueView::Number(bt) => match a {
                ValueView::Number(at) => (
                    with_stack(s, rest),
                    StepView::Compare { comparison: Comparison::Equal, left: at, right: bt },
                ),
                _ => (next_with(s, push_value(rest, ValueView::Boolean(false))), StepView::Continue),
            },
            ValueView::Object(_) => match a {
                ValueView::Object(_) => (
                    next_with(s, push_value(rest, ValueView::Boolean(false))),
                    StepView::Continue,
                ),
                _ => (next_with(s, rest), StepView::Continue),
            },
        }
    }
}

/// Checking the operands of an operation on two numbers: both must be
/// numbers, the right one (on top) checked first; each is popped as it is
/// checked. `None` when both are numbers, else how the step ends.
pub open spec fn check_number_operands(s: MachineState, on_error: RunTimeErrKind) -> (
    MachineState,
    Option<StepView>,
) {
    if s.stack.len() == 0 {
        (s, Some(StepView::Halted))
    } else if !is_number(s.stack.last()) {
        (with_stack(s, s.stack.drop_last()), Some(runtime_failure(s, on_error)))
    } else if s.stack.len() == 1 {
        (with_stack(s, seq![]), Some(StepView::Halted))
    } else if !is_number(s.stack.drop_last().last()) {
        (with_stack(s, s.stack.drop_last().drop_last()), Some(runtime_failure(s, on_error)))
    } else {
        (with_stack(s, s.stack.drop_last().drop_last()), None)
    }
}

/// An operation on two numbers: the operands are checked, and the caller
/// is asked to compute the result.
pub open spec fn binary_number_step(s: MachineState, on_error: RunTimeErrKind, need: StepView) -> (
    MachineState,
    StepView,
) {
    let (s1, stop) = check_number_operands(s, on_error);
    match stop {
        None => (s1, need),
        Some(v) => (s1, v),
    }
}

/// The request for `left op right` on the two numbers on top of the stack.
pub open spec fn arithmetic_need(s: MachineState, op: Arithmetic) -> StepView {
    StepView::Arithmetic {
        op,
        left: number_text(s.stack.drop_last().last()),
        right: number_text(s.stack.last()),
    }
}

pub open spec fn comparison_need(s: MachineState, op: Comparison) -> StepView {
    StepView::Compare {
        comparison: op,
        left: number_text(s.stack.drop_last().last()),
        right: number_text(s.stack.last()),
    }
}

/// `!`: nil is true, a boolean is negated; numbers and objects are errors.
pub open spec fn not_step(s: MachineState) -> (MachineState, StepView) {
    if s.stack.len() == 0 {
        (s, StepView::Halted)
    } else {
        let rest = s.stack.drop_last();
        match s.stack.last() {
            ValueView::Nil => (next_with(s, push_value(rest, ValueView::Boolean(true))), StepView::Continue),
            ValueView::Boolean(b) => (
                next_with(s, push_value(rest, ValueView::Boolean(!b))),
                StepView::Continue,
            ),
            ValueView::Number(_) => (
                with_stack(s, rest),
                runtime_failure(s, RunTimeErrKind::BooleanOperationOnNumber),
            ),
            ValueView::Object(_) => (
                with_stack(s, rest),
                runtime_failure(s, RunTimeErrKind::BooleanOperationOnObject),
            ),
        }
    }
}

/// Unary `-`: the operand must be a number; the caller negates it.
pub open spec fn negate_step(s: MachineState) -> (MachineState, StepView) {
    if s.stack.len() == 0 {
        (s, StepView::Halted)
    } else {
        let rest = s.stack.drop_last();
        match s.stack.last() {
            ValueView::Number(t) => (with_stack(s, rest), StepView::Negate { operand: t }),
            _ => (with_stack(s, rest), runtime_failure(s, RunTimeErrKind::ArithmeticOnNonNumber)),
        }
    }
}

/// `+`: two strings are joined into a new string; otherwise both operands
/// must be numbers, which the caller adds.
pub open spec fn add_step(s: MachineState) -> (MachineState, StepView) {
    if s.stack.len() >= 2 && s.stack.last() is Object && s.stack.drop_last().last() is Object {
        (
            next_with(
                s,
                push_value(
                    s.stack.drop_last().drop_last(),
                    ValueView::Object(
                        object_text(s.stack.drop_last().last()) + object_text(s.stack.last()),
                    ),
                ),
            ),
            StepView::Continue,
        )
    } else {
        binary_number_step(
            s,
            RunTimeErrKind::ArithmeticOnNonNumber,
            arithmetic_need(s, Arithmetic::Add),
        )
    }
}

pub open spec fn object_text(v: ValueView) -> Seq<char> {
    match v {
        ValueView::Object(t) => t,
        _ => seq![],
    }
}

/// `print`: the value on top of the stack is popped and handed out.
pub open spec fn print_step(s: MachineState) -> (MachineState, StepView) {
    if s.stack.len() == 0 {
        (s, StepView::Halted)
    } else {
        (next_with(s, s.stack.drop_last()), StepView::Print(s.stack.last()))
    }
}

/// The end of an expression statement: its value is popped.
pub open spec fn pop_step(s: MachineState) -> (MachineState, StepView) {
    if s.stack.len() == 0 {
        (s, StepView::Halted)
    } else {
        (next_with(s, s.stack.drop_last()), StepView::Continue)
    }
}

/// The distance a jump at `ip` goes past its two operand bytes: the first
/// byte is the high one.
pub open spec fn jump_offset(code: Seq<Chunk>, ip: int) -> int {
    code[ip + 1].op * 256 + code[ip + 2].op
}

/// The machine moved to `target`; a target beyond the range of an index
/// halts it.
pub open spec fn jumped(s: MachineState, target: int) -> (MachineState, StepView) {
    if target > usize::MAX {
        (s, StepView::Halted)
    } else {
        (MachineState { ip: target, ..s }, StepView::Continue)
    }
}

/// `Jump`: on past its operands and the distance they give.
pub open spec fn jump_step(s: MachineState) -> (MachineState, StepView) {
    if s.ip + 2 >= s.code.len() {
        (s, StepView::Halted)
    } else {
        jumped(s, s.ip + 3 + jump_offset(s.code, s.ip))
    }
}

/// `JumpIfFalse`: the value on top of the stack, left there, must be a
/// boolean; on `false` the machine jumps, on `true` it goes on past the
/// operands.
pub open spec fn jump_if_false_step(s: MachineState) -> (MachineState, StepView) {
    if s.ip + 2 >= s.code.len() || s.stack.len() == 0 {
        (s, StepView::Halted)
    } else {
        match s.stack.last() {
            ValueView::Boolean(b) => if b {
                (MachineState { ip: s.ip + 3, ..s }, StepView::Continue)
            } else {
                jumped(s, s.ip + 3 + jump_offset(s.code, s.ip))
            },
            ValueView::Nil => (s, runtime_failure(s, RunTimeErrKind::BooleanOperationOnNil)),
            ValueView::Number(_) => (s, runtime_failure(s, RunTimeErrKind::BooleanOperationOnNumber)),
            ValueView::Object(_) => (s, runtime_failure(s, RunTimeErrKind::BooleanOperationOnObject)),
        }
    }
}

/// Carrying out the instruction `op` at the instruction pointer.
pub open spec fn operation_step(s: MachineState, op: OpCode) -> (MachineState, StepView) {
    match op {
        OpCode::Constant => if s.ip + 1 >= s.code.len() || s.code[s.ip + 1].op >= s.constants.len() {
            (s, StepView::Halted)
        } else {
            (
                MachineState {
                    stack: push_value(s.stack, s.constants[s.code[s.ip + 1].op as int]),
                    ip: s.ip + 2,
                    ..s
                },
                StepView::Continue,
            )
        },
        OpCode::Equal => equal_step(s),
        OpCode::Greater => binary_number_step(
            s,
            RunTimeErrKind::ComparisonOnNonNumber,
            comparison_need(s, Comparison::Greater),
        ),
        OpCode::Less => binary_number_step(
            s,
            RunTimeErrKind::ComparisonOnNonNumber,
            comparison_need(s, Comparison::Less),
        ),
        OpCode::Add => add_step(s),
        OpCode::Subtract => binary_number_step(
            s,
            RunTimeErrKind::ArithmeticOnNonNumber,
            arithmetic_need(s, Arithmetic::Subtract),
        ),
        OpCode::Multiply => binary_number_step(
            s,
            RunTimeErrKind::ArithmeticOnNonNumber,
            arithmetic_need(s, Arithmetic::Multiply),
        ),
        OpCode::Divide => binary_number_step(
            s,
            RunTimeErrKind::ArithmeticOnNonNumber,
            arithmetic_need(s, Arithmetic::Divide),
        ),
        OpCode::Not => not_step(s),
        OpCode::Negate => negate_step(s),
        OpCode::Print => print_step(s),
        OpCode::Pop => pop_step(s),
        OpCode::Jump => jump_step(s),
        OpCode::JumpIfFalse => jump_if_false_step(s),
        OpCode::Return => (
            s,
            StepView::Return(
                if s.stack.len() > 0 {
                    s.stack[0]
                } else {
                    ValueView::Nil
                },
            ),
        ),
        _ => (s, StepView::Halted),
    }
}

/// One step of the machine: out of steps, out of code, an undecodable byte,
/// or the instruction carried out.
pub open spec fn machine_step(s: MachineState) -> (MachineState, StepView) {
    if s.steps_left == 0 {
        (s, StepView::Failed(VMErrView::OutOfIterations))
    } else {
        let s0 = MachineState { steps_left: (s.steps_left - 1) as nat, ..s };
        if s.ip < 0 || s.ip >= s.code.len() {
            (s0, StepView::Halted)
        } else {
            match opcode_of_byte(s.code[s.ip].op) {
                None => (s0, StepView::Failed(VMErrView::Panic(invalid_opcode_message(s.code[s.ip].op)))),
                Some(op) => operation_step(s0, op),
            }
        }
    }
}

/// The instruction at the machine's instruction pointer, when there is one
/// and the machine has steps left.
pub open spec fn current_op(s: MachineState) -> Option<OpCode> {
    if s.steps_left > 0 && 0 <= s.ip < s.code.len() {
        opcode_of_byte(s.code[s.ip].op)
    } else {
        None
    }
}

/// `!nil` is `true`, and `!` of a boolean is its negation.
pub proof fn lemma_not_of_nil_and_booleans(s: MachineState)
    requires
        current_op(s) == Some(OpCode::Not),
        s.stack.len() > 0,
    ensures
        s.stack.last() is Nil ==> machine_step(s).1 == StepView::Continue
            && machine_step(s).0.stack == push_value(s.stack.drop_last(), ValueView::Boolean(true)),
        s.stack.last() matches ValueView::Boolean(b) ==> machine_step(s).1 == StepView::Continue
            && machine_step(s).0.stack == push_value(s.stack.drop_last(), ValueView::Boolean(!b)),
{
}

/// `!` of a number or of an object is a runtime error: the language
/// converts no other type to a boolean.
pub proof fn lemma_not_needs_booleans(s: MachineState)
    requires
        current_op(s) == Some(OpCode::Not),
        s.stack.len() > 0,
    ensures
        s.stack.last() is Number ==> machine_step(s).1 == runtime_failure(s, RunTimeErrKind::BooleanOperationOnNumber),
        s.stack.last() is Object ==> machine_step(s).1 == runtime_failure(s, RunTimeErrKind::BooleanOperationOnObject),
{
}

/// Arithmetic on anything but numbers is a runtime error; on two numbers
/// the machine asks for the result.
pub proof fn lemma_arithmetic_needs_numbers(s: MachineState)
    requires
        current_op(s) == Some(OpCode::Add) || current_op(s) == Some(OpCode::Subtract)
            || current_op(s) == Some(OpCode::Multiply) || current_op(s) == Some(OpCode::Divide),
        s.stack.len() >= 2,
    ensures
        !joins_strings(s) && (!is_number(s.stack.last()) || !is_number(
            s.stack.drop_last().last(),
        )) ==> machine_step(s).1 == runtime_failure(s, RunTimeErrKind::ArithmeticOnNonNumber),
        is_number(s.stack.last()) && is_number(s.stack.drop_last().last()) ==> machine_step(
            s,
        ).1 is Arithmetic && machine_step(s).0.stack == s.stack.drop_last().drop_last(),
{
}

/// The step is a `+` on two strings.
pub open spec fn joins_strings(s: MachineState) -> bool {
    &&& current_op(s) == Some(OpCode::Add)
    &&& s.stack.len() >= 2
    &&& s.stack.last() is Object
    &&& s.stack.drop_last().last() is Object
}

/// `+` on two strings replaces them with one string holding the left one's
/// characters followed by the right one's.
pub proof fn lemma_add_joins_strings(s: MachineState, left: Seq<char>, right: Seq<char>)
    requires
        current_op(s) == Some(OpCode::Add),
        s.stack.len() >= 2,
        s.stack.last() == ValueView::Object(right),
        s.stack.drop_last().last() == ValueView::Object(left),
    ensures
        machine_step(s).1 == StepView::Continue,
        machine_step(s).0.stack == push_value(
            s.stack.drop_last().drop_last(),
            ValueView::Object(left + right),
        ),
        machine_step(s).0.ip == s.ip + 1,
{
}

/// `print` pops the value on top of the stack and hands it out to be
/// printed.
pub proof fn lemma_print_hands_out_value(s: MachineState)
    requires
        current_op(s) == Some(OpCode::Print),
        s.stack.len() > 0,
    ensures
        machine_step(s).1 == StepView::Print(s.stack.last()),
        machine_step(s).0.stack == s.stack.drop_last(),
        machine_step(s).0.ip == s.ip + 1,
{
}

/// Negating anything but a number is a runtime error.
pub proof fn lemma_negate_needs_a_number(s: MachineState)
    requires
        current_op(s) == Some(OpCode::Negate),
        s.stack.len() > 0,
    ensures
        !is_number(s.stack.last()) ==> machine_step(s).1 == runtime_failure(s, RunTimeErrKind::ArithmeticOnNonNumber),
        is_number(s.stack.last()) ==> machine_step(s).1 == (StepView::Negate {
            operand: number_text(s.stack.last()),
        }),
{
}

/// `<` and `>` compare numbers only.
pub proof fn lemma_comparison_needs_numbers(s: MachineState)
    requires
        current_op(s) == Some(OpCode::Greater) || current_op(s) == Some(OpCode::Less),
        s.stack.len() >= 2,
    ensures
        !is_number(s.stack.last()) || !is_number(s.stack.drop_last().last()) ==> machine_step(s).1
            == runtime_failure(s, RunTimeErrKind::ComparisonOnNonNumber),
        is_number(s.stack.last()) && is_number(s.stack.drop_last().last()) ==> machine_step(
            s,
        ).1 is Compare,
{
}

/// Every step uses up one of the machine's steps; with none left it fails
/// with `OutOfIterations` and changes nothing. A run therefore ends after at
/// most `MAX_STEPS` steps.
pub proof fn lemma_steps_run_out(s: MachineState)
    ensures
        s.steps_left == 0 ==> machine_step(s) == (s, StepView::Failed(VMErrView::OutOfIterations)),
        s.steps_left > 0 ==> machine_step(s).0.steps_left == s.steps_left - 1,
{
}

/// Equality on two nils is true; on two booleans it is their equality; a nil
/// or a boolean is never equal to a value of another type.
pub proof fn lemma_equality_of_nils_and_booleans(s: MachineState)
    requires
        current_op(s) == Some(OpCode::Equal),
        s.stack.len() >= 2,
    ensures
        s.stack.last() is Nil ==> machine_step(s).0.stack == push_value(
            s.stack.drop_last().drop_last(),
            ValueView::Boolean(s.stack.drop_last().last() is Nil),
        ),
        s.stack.last() matches ValueView::Boolean(b) ==> machine_step(s).0.stack == push_value(
            s.stack.drop_last().drop_last(),
            ValueView::Boolean(s.stack.drop_last().last() == ValueView::Boolean(b)),
        ),
{
}

/// Short cuts: `JumpIfFalse` on `false` leaves the value and jumps past its
/// operands by the distance they give; on `true` it leaves the value and goes
/// on; on a value that is no boolean it fails, as `and` and `or` take
/// booleans only.
pub proof fn lemma_jump_if_false(s: MachineState)
    requires
        current_op(s) == Some(OpCode::JumpIfFalse),
        s.ip + 2 < s.code.len(),
        s.stack.len() > 0,
    ensures
        s.stack.last() == ValueView::Boolean(false) && s.ip + 3 + jump_offset(s.code, s.ip)
            <= usize::MAX ==> machine_step(s).1 == StepView::Continue && machine_step(s).0.ip
            == s.ip + 3 + jump_offset(s.code, s.ip) && machine_step(s).0.stack == s.stack,
        s.stack.last() == ValueView::Boolean(true) ==> machine_step(s).1 == StepView::Continue
            && machine_step(s).0.ip == s.ip + 3 && machine_step(s).0.stack == s.stack,
        !(s.stack.last() is Boolean) ==> machine_step(s).1 is Failed,
{
}

/// On two numbers, `>` and `<` ask the caller to compare the lower value
/// (the left operand) with the top one (the right operand) by that very
/// comparison, and `==` asks for equality; both operands are popped.
pub proof fn lemma_comparisons_ask_for_themselves(s: MachineState, l: Seq<char>, r: Seq<char>)
    requires
        s.steps_left > 0,
        0 <= s.ip < s.code.len(),
        s.stack.len() >= 2,
        s.stack.last() == ValueView::Number(r),
        s.stack.drop_last().last() == ValueView::Number(l),
    ensures
        current_op(s) == Some(OpCode::Greater) ==> machine_step(s).1 == (StepView::Compare {
            comparison: Comparison::Greater,
            left: l,
            right: r,
        }),
        current_op(s) == Some(OpCode::Less) ==> machine_step(s).1 == (StepView::Compare {
            comparison: Comparison::Less,
            left: l,
            right: r,
        }),
        current_op(s) == Some(OpCode::Equal) ==> machine_step(s).1 == (StepView::Compare {
            comparison: Comparison::Equal,
            left: l,
            right: r,
        }),
        current_op(s) == Some(OpCode::Greater) || current_op(s) == Some(OpCode::Less)
            || current_op(s) == Some(OpCode::Equal) ==> machine_step(s).0.stack
            == s.stack.drop_last().drop_last() && machine_step(s).0.ip == s.ip,
{
}

/// On two numbers, each arithmetic instruction asks the caller for its own
/// operation on the lower value (left) and the top one (right); negation
/// asks for the negation of the top value. The operands are popped.
pub proof fn lemma_arithmetic_asks_for_itself(s: MachineState, l: Seq<char>, r: Seq<char>)
    requires
        s.steps_left > 0,
        0 <= s.ip < s.code.len(),
        s.stack.len() >= 2,
        s.stack.last() == ValueView::Number(r),
        s.stack.drop_last().last() == ValueView::Number(l),
    ensures
        current_op(s) == Some(OpCode::Add) ==> machine_step(s).1 == (StepView::Arithmetic {
            op: Arithmetic::Add,
            left: l,
            right: r,
        }),
        current_op(s) == Some(OpCode::Subtract) ==> machine_step(s).1 == (StepView::Arithmetic {
            op: Arithmetic::Subtract,
            left: l,
            right: r,
        }),
        current_op(s) == Some(OpCode::Multiply) ==> machine_step(s).1 == (StepView::Arithmetic {
            op: Arithmetic::Multiply,
            left: l,
            right: r,
        }),
        current_op(s) == Some(OpCode::Divide) ==> machine_step(s).1 == (StepView::Arithmetic {
            op: Arithmetic::Divide,
            left: l,
            right: r,
        }),
        current_op(s) == Some(OpCode::Negate) ==> machine_step(s).1 == (StepView::Negate {
            operand: r,
        }) && machine_step(s).0.stack == s.stack.drop_last(),
{
}

/// The exit statuses: 0 for a program that returned or used up its steps,
/// 70 for a runtime error, whatever its line and kind, 1 for a panic. A
/// runtime error never exits as a successful run does.
pub proof fn lemma_exit_statuses(line: usize, kind: RunTimeErrKind, msg: Seq<char>)
    ensures
        exit_status_of(Ok(())) == 0,
        exit_status_of(Err(VMErrView::RuntimeErr { line, kind })) == 70,
        exit_status_of(Err(VMErrView::RuntimeErr { line, kind })) != exit_status_of(Ok(())),
        exit_status_of(Err(VMErrView::Panic(msg))) == 1,
        exit_status_of(Err(VMErrView::OutOfIterations)) == 0,
{
}

/// The machine after the caller hands back the result of a requested
/// computation: the result pushed, the instruction done.
pub open spec fn resumed(s: MachineState, v: ValueView) -> MachineState {
    if 0 <= s.ip < s.code.len() {
        next_with(s, push_value(s.stack, v))
    } else {
        s
    }
}

/// What a run's outcome makes the process exit with: 70 for a runtime
/// error, 1 for a panic, 0 otherwise.
pub open spec fn exit_status_of(r: Result<(), VMErrView>) -> u8 {
    match r {
        Ok(()) => 0,
        Err(VMErrView::RuntimeErr { .. }) => 70,
        Err(VMErrView::Panic(_)) => 1,
        Err(VMErrView::OutOfIterations) => 0,
    }
}

/// The bytecode machine: its code, the constants the compiler produced, its
/// stack of values and its instruction pointer.
pub struct VM {
    code: Vec<Chunk>,
    compiled_values: FixedVec<Value, STACK_MAX>,
    runtime_values: FixedVec<Value, STACK_MAX>,
    ip: usize,
    steps_left: usize,
}

impl VM {
    pub closed spec fn state(&self) -> MachineState {
        MachineState {
            code: self.code@,
            constants: self.compiled_values@.map_values(|v: Value| v@),
            stack: self.runtime_values@.map_values(|v: Value| v@),
            ip: self.ip as int,
            steps_left: self.steps_left as nat,
        }
    }

    /// A machine at the start of `code`, with an empty stack.
    pub fn new(code: Vec<Chunk>, values: FixedVec<Value, STACK_MAX>) -> (r: Self)
        ensures
            r.state() == (MachineState {
                code: code@,
                constants: values@.map_values(|v: Value| v@),
                stack: seq![],
                ip: 0,
                steps_left: MAX_STEPS as nat,
            }),
    {
        let r = VM {
            code,
            ip: 0,
            compiled_values: values,
            runtime_values: FixedVec::<Value, STACK_MAX>::new(),
            steps_left: MAX_STEPS,
        };
        assert(r.state().stack =~= Seq::<ValueView>::empty());
        r
    }

    /// Pushes a value; a push onto a full stack is lost.
    fn push_value(&mut self, val: Value)
        ensures
            final(self).state() == with_stack(old(self).state(), push_value(old(self).state().stack, val@)),
    {
        let ghost before = self.state().stack;
        let ghost v = val@;
        let _ = self.runtime_values.push(val);
        assert(self.state().stack =~= push_value(before, v));
    }

    /// Pops the value on top of the stack.
    fn pop_value(&mut self) -> (r: Value)
        requires
            old(self).state().stack.len() > 0,
        ensures
            r@ == old(self).state().stack.last(),
            final(self).state() == with_stack(old(self).state(), old(self).state().stack.drop_last()),
    {
        let ghost before = self.state().stack;
        match self.runtime_values.pop() {
            Some(v) => {
                assert(self.state().stack =~= before.drop_last());
                v
            },
            None => Value::Nil,
        }
    }

    /// The error `kind` at the line of the current instruction.
    fn runtime_err(&self, kind: RunTimeErrKind) -> (r: VMErr)
        requires
            self.state().ip < self.state().code.len(),
        ensures
            StepView::Failed(r@) == runtime_failure(self.state(), kind),
    {
        VMErr::RuntimeErr(RunTimeErr { line: self.code[self.ip].line, kind })
    }

    /// Pushes the constant whose index is the byte at the instruction
    /// pointer, and moves past that byte.
    fn read_constant(&mut self)
        requires
            old(self).state().ip < old(self).state().code.len(),
            old(self).state().code[old(self).state().ip].op < old(self).state().constants.len(),
        ensures
            final(self).state() == (MachineState {
                stack: push_value(
                    old(self).state().stack,
                    old(self).state().constants[old(self).state().code[old(self).state().ip].op as int],
                ),
                ip: old(self).state().ip + 1,
                ..old(self).state()
            }),
    {
        let code_len = self.code.len();
        assert(self.ip < code_len);
        let index = self.code[self.ip].op as usize;
        let value = match self.compiled_values.get(index) {
            Some(v) => v.clone(),
            None => Value::Nil,
        };
        self.push_value(value);
        self.ip = self.ip + 1;
    }

    /// Hands back the result of a computation the last step asked for: the
    /// result is pushed and the instruction is done.
    pub fn resume(&mut self, result: Value)
        ensures
            final(self).state() == resumed(old(self).state(), result@),
    {
        if self.ip < self.code.len() {
            self.push_value(result);
            self.ip = self.ip + 1;
        }
    }

    /// Checks the two operands of an operation on numbers, the right one (on
    /// top) first, and pops them.
    fn pop_numbers(&mut self, on_error: RunTimeErrKind) -> (r: Result<(String, String), Step>)
        requires
            old(self).state().ip < old(self).state().code.len(),
        ensures
            ({
                let s = old(self).state();
                let (s1, stop) = check_number_operands(s, on_error);
                final(self).state() == s1 && match r {
                    Ok((left, right)) => stop is None && left@ == number_text(
                        s.stack.drop_last().last(),
                    ) && right@ == number_text(s.stack.last()),
                    Err(step) => stop == Some(step@),
                }
            }),
    {
        if self.runtime_values.len() == 0 {
            return Err(Step::Halted);
        }
        let right = match self.pop_value() {
            Value::Number(b) => b,
            _ => {
                return Err(Step::Failed(self.runtime_err(on_error)));
            },
        };
        if self.runtime_values.len() == 0 {
            assert(self.state().stack =~= Seq::<ValueView>::empty());
            return Err(Step::Halted);
        }
        let left = match self.pop_value() {
            Value::Number(a) => a,
            _ => {
                return Err(Step::Failed(self.runtime_err(on_error)));
            },
        };
        Ok((left, right))
    }

    /// The two values on top of the stack are both objects.
    fn top_two_are_objects(&self) -> (r: bool)
        ensures
            r == (self.state().stack.len() >= 2 && self.state().stack.last() is Object
                && self.state().stack.drop_last().last() is Object),
    {
        let n = self.runtime_values.len();
        if n < 2 {
            return false;
        }
        let top = self.runtime_values.get(n - 1);
        let below = self.runtime_values.get(n - 2);
        match (top, below) {
            (Some(Value::Object(_)), Some(Value::Object(_))) => true,
            _ => false,
        }
    }

    /// Carries out `Jump`, or `JumpIfFalse` when `conditional`.
    fn jump(&mut self, conditional: bool) -> (r: Step)
        requires
            old(self).state().ip < old(self).state().code.len(),
        ensures
            (final(self).state(), r@) == if conditional {
                jump_if_false_step(old(self).state())
            } else {
                jump_step(old(self).state())
            },
    {
        let len = self.code.len();
        if len - self.ip <= 2 {
            return Step::Halted;
        }
        let hi = self.code[self.ip + 1].op as usize;
        let lo = self.code[self.ip + 2].op as usize;
        let offset: usize = hi * 256 + lo;
        if conditional {
            let n = self.runtime_values.len();
            if n == 0 {
                return Step::Halted;
            }
            match self.runtime_values.get(n - 1) {
                Some(Value::Boolean(true)) => {
                    self.ip = self.ip + 3;
                    return Step::Continue;
                },
                Some(Value::Boolean(false)) => {},
                Some(Value::Nil) => {
                    return Step::Failed(self.runtime_err(RunTimeErrKind::BooleanOperationOnNil));
                },
                Some(Value::Number(_)) => {
                    return Step::Failed(self.runtime_err(RunTimeErrKind::BooleanOperationOnNumber));
                },
                _ => {
                    return Step::Failed(self.runtime_err(RunTimeErrKind::BooleanOperationOnObject));
                },
            }
        }
        let past = self.ip + 3;
        match past.checked_add(offset) {
            Some(target) => {
                self.ip = target;
                Step::Continue
            },
            None => Step::Halted,
        }
    }

    /// Executes the instruction at the instruction pointer, or says what
    /// the caller is to compute for it.
    pub fn step(&mut self) -> (r: Step)
        ensures
            (final(self).state(), r@) == machine_step(old(self).state()),
    {
        if self.steps_left == 0 {
            return Step::Failed(VMErr::OutOfIterations);
        }
        self.steps_left = self.steps_left - 1;
        if self.ip >= self.code.len() {
            return Step::Halted;
        }
        let op_result = OpCode::try_from(self.code[self.ip].op);
        match op_result {
            Err(msg) => Step::Failed(VMErr::Panic(msg)),
            Ok(op) => match op {
                OpCode::Constant => {
                    if self.ip + 1 >= self.code.len() {
                        return Step::Halted;
                    }
                    if self.code[self.ip + 1].op as usize >= self.compiled_values.len() {
                        return Step::Halted;
                    }
                    self.ip = self.ip + 1;
                    self.read_constant();
                    Step::Continue
                },
                OpCode::Equal => {
                    if self.runtime_values.len() < 2 {
                        if self.runtime_values.len() == 1 {
                            self.pop_value();
                        }
                        proof {
                            assert(self.state().stack =~= Seq::<ValueView>::empty());
                        }
                        return Step::Halted;
                    }
                    match self.pop_value() {
                        Value::Nil => {
                            if let Value::Nil = self.pop_value() {
                                self.push_value(Value::Boolean(true))
                            } else {
                                self.push_value(Value::Boolean(false))
                            }
                        },
                        Value::Boolean(b) => {
                            if let Value::Boolean(a) = self.pop_value() {
                                self.push_value(Value::Boolean(a == b))
                            } else {
                                self.push_value(Value::Boolean(false))
                            }
                        },
                        Value::Number(b) => {
                            if let Value::Number(a) = self.pop_value() {
                                return Step::Compare { comparison: Comparison::Equal, left: a, right: b };
                            } else {
                                self.push_value(Value::Boolean(false))
                            }
                        },
                        Value::Object(_) => {
                            // Each stack slot owns its object, so two popped
                            // objects are never the same one.
                            if let Value::Object(_) = self.pop_value() {
                                self.push_value(Value::Boolean(false))
                            }
                        },
                    }
                    self.ip = self.ip + 1;
                    Step::Continue
                },
                OpCode::Greater | OpCode::Less => {
                    let comparison = if op == OpCode::Greater {
                        Comparison::Greater
                    } else {
                        Comparison::Less
                    };
                    match self.pop_numbers(RunTimeErrKind::ComparisonOnNonNumber) {
                        Ok((left, right)) => Step::Compare { comparison, left, right },
                        Err(step) => step,
                    }
                },
                OpCode::Add if self.top_two_are_objects() => {
                    let right = self.pop_value();
                    let left = self.pop_value();
                    let joined = join_objects(&left, &right);
                    self.push_value(joined);
                    self.ip = self.ip + 1;
                    Step::Continue
                },
                OpCode::Print | OpCode::Pop => {
                    if self.runtime_values.len() == 0 {
                        return Step::Halted;
                    }
                    let v = self.pop_value();
                    self.ip = self.ip + 1;
                    if op == OpCode::Print {
                        Step::Print(v)
                    } else {
                        Step::Continue
                    }
                },
                OpCode::Jump | OpCode::JumpIfFalse => self.jump(op == OpCode::JumpIfFalse),
                OpCode::Add | OpCode::Subtract | OpCode::Multiply | OpCode::Divide => {
                    let arith = if op == OpCode::Add {
                        Arithmetic::Add
                    } else if op == OpCode::Subtract {
                        Arithmetic::Subtract
                    } else if op == OpCode::Multiply {
                        Arithmetic::Multiply
                    } else {
                        Arithmetic::Divide
                    };
                    match self.pop_numbers(RunTimeErrKind::ArithmeticOnNonNumber) {
                        Ok((left, right)) => Step::Arithmetic { op: arith, left, right },
                        Err(step) => step,
                    }
                },
                OpCode::Not => {
                    if self.runtime_values.len() == 0 {
                        return Step::Halted;
                    }
                    match self.pop_value() {
                        Value::Nil => self.push_value(Value::Boolean(true)),
                        Value::Boolean(b) => self.push_value(Value::Boolean(!b)),
                        Value::Number(_) => {
                            return Step::Failed(
                                self.runtime_err(RunTimeErrKind::BooleanOperationOnNumber),
                            );
                        },
                        Value::Object(_) => {
                            return Step::Failed(
                                self.runtime_err(RunTimeErrKind::BooleanOperationOnObject),
                            );
                        },
                    }
                    self.ip = self.ip + 1;
                    Step::Continue
                },
                OpCode::Negate => {
                    if self.runtime_values.len() == 0 {
                        return Step::Halted;
                    }
                    match self.pop_value() {
                        Value::Number(num) => Step::Negate { operand: num },
                        _ => Step::Failed(self.runtime_err(RunTimeErrKind::ArithmeticOnNonNumber)),
                    }
                },
                OpCode::Return => {
                    match self.runtime_values.get(0) {
                        Some(v) => Step::Return(v.clone()),
                        None => Step::Return(Value::Nil),
                    }
                },
                _ => Step::Halted,
            },
        }
    }
}

/// A new string object holding the characters of `left` followed by those
/// of `right`, when both are strings.
fn join_objects(left: &Value, right: &Value) -> (r: Value)
    requires
        left@ is Object,
        right@ is Object,
    ensures
        r@ == ValueView::Object(
            object_text(left@) + object_text(right@),
        ),
{
    match (left, right) {
        (Value::Object(a), Value::Object(b)) => {
            let mut text = a.to_string();
            let b_text = b.to_string();
            text.append(b_text.as_str());
            Value::Object(Box::new(Object::String(rc_str_from(text.as_str()))))
        },
        _ => Value::Nil,
    }
}

/// The exit status of a program whose source does not compile.
pub const COMPILE_ERROR_STATUS: u8 = 65;

/// The exit status for the outcome of a run: 70 for a runtime error, 1 for
/// a panic, 0 for a return and for a run that used up its steps.
pub fn exit_status(result: &Result<(), VMErr>) -> (r: u8)
    ensures
        r == exit_status_of(
            match result {
                Ok(()) => Ok(()),
                Err(e) => Err(e@),
            },
        ),
{
    match result {
        Ok(()) => 0,
        Err(VMErr::RuntimeErr(_)) => 70,
        Err(VMErr::Panic(_)) => 1,
        Err(VMErr::OutOfIterations) => 0,
    }
}

} // verus!
