use vstd::prelude::*;
use crate::text::{decimal, decimal_len, decimal_string};

verus! {

/// The instructions of the bytecode machine.
#[derive(Clone, Copy, Debug, PartialEq, Eq, Structural)]
pub enum OpCode {
    Constant,
    Nil,
    True,
    False,
    Pop,
    GetLocal,
    SetLocal,
    GetGlobal,
    DefineGlobal,
    SetGlobal,
    GetUpValue,
    SetUpValue,
    GetProperty,
    SetProperty,
    GetSuper,
    Equal,
    Greater,
    Less,
    Add,
    Subtract,
    Multiply,
    Divide,
    Not,
    Negate,
    Print,
    Jump,
    JumpIfFalse,
    Loop,
    Call,
    Invoke,
    SuperInvoke,
    Closure,
    CloseUpValue,
    Return,
    Class,
    Inherit,
    Method,
}

/// The byte that encodes each instruction.
pub open spec fn opcode_byte(op: OpCode) -> u8 {
    match op {
        OpCode::Constant => 0,
        OpCode::Nil => 1,
        OpCode::True => 2,
        OpCode::False => 3,
        OpCode::Pop => 4,
        OpCode::GetLocal => 5,
        OpCode::SetLocal => 6,
        OpCode::GetGlobal => 7,
        OpCode::DefineGlobal => 8,
        OpCode::SetGlobal => 9,
        OpCode::GetUpValue => 10,
        OpCode::SetUpValue => 11,
        OpCode::GetProperty => 12,
        OpCode::SetProperty => 13,
        OpCode::GetSuper => 14,
        OpCode::Equal => 15,
        OpCode::Greater => 16,
        OpCode::Less => 17,
        OpCode::Add => 18,
        OpCode::Subtract => 19,
        OpCode::Multiply => 20,
        OpCode::Divide => 21,
        OpCode::Not => 22,
        OpCode::Negate => 23,
        OpCode::Print => 24,
        OpCode::Jump => 25,
        OpCode::JumpIfFalse => 26,
        OpCode::Loop => 27,
        OpCode::Call => 28,
        OpCode::Invoke => 29,
        OpCode::SuperInvoke => 30,
        OpCode::Closure => 31,
        OpCode::CloseUpValue => 32,
        OpCode::Return => 33,
        OpCode::Class => 34,
        OpCode::Inherit => 35,
        OpCode::Method => 36,
    }
}

/// The instruction a byte encodes, if any: the bytes below 37 encode one each.
pub open spec fn opcode_of_byte(b: u8) -> Option<OpCode> {
    if b == 0 {
        Some(OpCode::Constant)
    } else if b == 1 {
        Some(OpCode::Nil)
    } else if b == 2 {
        Some(OpCode::True)
    } else if b == 3 {
        Some(OpCode::False)
    } else if b == 4 {
        Some(OpCode::Pop)
    } else if b == 5 {
        Some(OpCode::GetLocal)
    } else if b == 6 {
        Some(OpCode::SetLocal)
    } else if b == 7 {
        Some(OpCode::GetGlobal)
    } else if b == 8 {
        Some(OpCode::DefineGlobal)
    } else if b == 9 {
        Some(OpCode::SetGlobal)
    } else if b == 10 {
        Some(OpCode::GetUpValue)
    } else if b == 11 {
        Some(OpCode::SetUpValue)
    } else if b == 12 {
        Some(OpCode::GetProperty)
    } else if b == 13 {
        Some(OpCode::SetProperty)
    } else if b == 14 {
        Some(OpCode::GetSuper)
    } else if b == 15 {
        Some(OpCode::Equal)
    } else if b == 16 {
        Some(OpCode::Greater)
    } else if b == 17 {
        Some(OpCode::Less)
    } else if b == 18 {
        Some(OpCode::Add)
    } else if b == 19 {
        Some(OpCode::Subtract)
    } else if b == 20 {
        Some(OpCode::Multiply)
    } else if b == 21 {
        Some(OpCode::Divide)
    } else if b == 22 {
        Some(OpCode::Not)
    } else if b == 23 {
        Some(OpCode::Negate)
    } else if b == 24 {
        Some(OpCode::Print)
    } else if b == 25 {
        Some(OpCode::Jump)
    } else if b == 26 {
        Some(OpCode::JumpIfFalse)
    } else if b == 27 {
        Some(OpCode::Loop)
    } else if b == 28 {
        Some(OpCode::Call)
    } else if b == 29 {
        Some(OpCode::Invoke)
    } else if b == 30 {
        Some(OpCode::SuperInvoke)
    } else if b == 31 {
        Some(OpCode::Closure)
    } else if b == 32 {
        Some(OpCode::CloseUpValue)
    } else if b == 33 {
        Some(OpCode::Return)
    } else if b == 34 {
        Some(OpCode::Class)
    } else if b == 35 {
        Some(OpCode::Inherit)
    } else if b == 36 {
        Some(OpCode::Method)
    } else {
        None
    }
}

/// The name of each instruction.
pub open spec fn opcode_name(op: OpCode) -> Seq<char> {
    match op {
        OpCode::Constant => "Constant"@,
        OpCode::Nil => "Nil"@,
        OpCode::True => "True"@,
        OpCode::False => "False"@,
        OpCode::Pop => "Pop"@,
        OpCode::GetLocal => "GetLocal"@,
        OpCode::SetLocal => "SetLocal"@,
        OpCode::GetGlobal => "GetGlobal"@,
        OpCode::DefineGlobal => "DefineGlobal"@,
        OpCode::SetGlobal => "SetGlobal"@,
        OpCode::GetUpValue => "GetUpValue"@,
        OpCode::SetUpValue => "SetUpValue"@,
        OpCode::GetProperty => "GetProperty"@,
        OpCode::SetProperty => "SetProperty"@,
        OpCode::GetSuper => "GetSuper"@,
        OpCode::Equal => "Equal"@,
        OpCode::Greater => "Greater"@,
        OpCode::Less => "Less"@,
        OpCode::Add => "Add"@,
        OpCode::Subtract => "Subtract"@,
        OpCode::Multiply => "Multiply"@,
        OpCode::Divide => "Divide"@,
        OpCode::Not => "Not"@,
        OpCode::Negate => "Negate"@,
        OpCode::Print => "Print"@,
        OpCode::Jump => "Jump"@,
        OpCode::JumpIfFalse => "JumpIfFalse"@,
        OpCode::Loop => "Loop"@,
        OpCode::Call => "Call"@,
        OpCode::Invoke => "Invoke"@,
        OpCode::SuperInvoke => "SuperInvoke"@,
        OpCode::Closure => "Closure"@,
        OpCode::CloseUpValue => "CloseUpValue"@,
        OpCode::Return => "Return"@,
        OpCode::Class => "Class"@,
        OpCode::Inherit => "Inherit"@,
        OpCode::Method => "Method"@,
    }
}

/// The message for a byte that encodes no instruction.
pub open spec fn invalid_opcode_message(b: u8) -> Seq<char> {
    "Received invalid opcode: "@ + decimal(b as nat)
}

/// Encoding an instruction and decoding the byte gives the instruction back,
/// and no two instructions share a byte.
pub proof fn lemma_opcode_round_trip(op: OpCode, other: OpCode)
    ensures
        opcode_of_byte(opcode_byte(op)) == Some(op),
        opcode_byte(op) == opcode_byte(other) ==> op == other,
{
}

/// Decoding a byte that encodes an instruction and encoding the result gives
/// the byte back.
pub proof fn lemma_byte_round_trip(b: u8)
    ensures
        opcode_of_byte(b) matches Some(op) ==> opcode_byte(op) == b,
        opcode_of_byte(b) is Some <==> b < 37,
{
}

impl OpCode {
    /// The name of the instruction.
    pub fn as_str(&self) -> (r: &'static str)
        ensures
            r@ == opcode_name(*self),
    {
        match self {
            OpCode::Constant => "Constant",
            OpCode::Nil => "Nil",
            OpCode::True => "True",
            OpCode::False => "False",
            OpCode::Pop => "Pop",
            OpCode::GetLocal => "GetLocal",
            OpCode::SetLocal => "SetLocal",
            OpCode::GetGlobal => "GetGlobal",
            OpCode::DefineGlobal => "DefineGlobal",
            OpCode::SetGlobal => "SetGlobal",
            OpCode::GetUpValue => "GetUpValue",
            OpCode::SetUpValue => "SetUpValue",
            OpCode::GetProperty => "GetProperty",
            OpCode::SetProperty => "SetProperty",
            OpCode::GetSuper => "GetSuper",
            OpCode::Equal => "Equal",
            OpCode::Greater => "Greater",
            OpCode::Less => "Less",
            OpCode::Add => "Add",
            OpCode::Subtract => "Subtract",
            OpCode::Multiply => "Multiply",
            OpCode::Divide => "Divide",
            OpCode::Not => "Not",
            OpCode::Negate => "Negate",
            OpCode::Print => "Print",
            OpCode::Jump => "Jump",
            OpCode::JumpIfFalse => "JumpIfFalse",
            OpCode::Loop => "Loop",
            OpCode::Call => "Call",
            OpCode::Invoke => "Invoke",
            OpCode::SuperInvoke => "SuperInvoke",
            OpCode::Closure => "Closure",
            OpCode::CloseUpValue => "CloseUpValue",
            OpCode::Return => "Return",
            OpCode::Class => "Class",
            OpCode::Inherit => "Inherit",
            OpCode::Method => "Method",
        }
    }

    /// The byte that encodes the instruction.
    pub fn to_byte(&self) -> (r: u8)
        ensures
            r == opcode_byte(*self),
    {
        match self {
            OpCode::Constant => 0,
            OpCode::Nil => 1,
            OpCode::True => 2,
            OpCode::False => 3,
            OpCode::Pop => 4,
            OpCode::GetLocal => 5,
            OpCode::SetLocal => 6,
            OpCode::GetGlobal => 7,
            OpCode::DefineGlobal => 8,
            OpCode::SetGlobal => 9,
            OpCode::GetUpValue => 10,
            OpCode::SetUpValue => 11,
            OpCode::GetProperty => 12,
            OpCode::SetProperty => 13,
            OpCode::GetSuper => 14,
            OpCode::Equal => 15,
            OpCode::Greater => 16,
            OpCode::Less => 17,
            OpCode::Add => 18,
            OpCode::Subtract => 19,
            OpCode::Multiply => 20,
            OpCode::Divide => 21,
            OpCode::Not => 22,
            OpCode::Negate => 23,
            OpCode::Print => 24,
            OpCode::Jump => 25,
            OpCode::JumpIfFalse => 26,
            OpCode::Loop => 27,
            OpCode::Call => 28,
            OpCode::Invoke => 29,
            OpCode::SuperInvoke => 30,
            OpCode::Closure => 31,
            OpCode::CloseUpValue => 32,
            OpCode::Return => 33,
            OpCode::Class => 34,
            OpCode::Inherit => 35,
            OpCode::Method => 36,
        }
    }

    /// The instruction `value` encodes, or a message saying that it encodes none.
    pub fn try_from(value: u8) -> (r: Result<OpCode, String>)
        ensures
            opcode_of_byte(value) matches Some(op) ==> r == Ok::<OpCode, String>(op),
            opcode_of_byte(value) is None ==> (r matches Err(msg) && msg@ == invalid_opcode_message(
                value,
            )),
    {
        match value {
            0 => Ok(OpCode::Constant),
            1 => Ok(OpCode::Nil),
            2 => Ok(OpCode::True),
            3 => Ok(OpCode::False),
            4 => Ok(OpCode::Pop),
            5 => Ok(OpCode::GetLocal),
            6 => Ok(OpCode::SetLocal),
            7 => Ok(OpCode::GetGlobal),
            8 => Ok(OpCode::DefineGlobal),
            9 => Ok(OpCode::SetGlobal),
            10 => Ok(OpCode::GetUpValue),
            11 => Ok(OpCode::SetUpValue),
            12 => Ok(OpCode::GetProperty),
            13 => Ok(OpCode::SetProperty),
            14 => Ok(OpCode::GetSuper),
            15 => Ok(OpCode::Equal),
            16 => Ok(OpCode::Greater),
            17 => Ok(OpCode::Less),
            18 => Ok(OpCode::Add),
            19 => Ok(OpCode::Subtract),
            20 => Ok(OpCode::Multiply),
            21 => Ok(OpCode::Divide),
            22 => Ok(OpCode::Not),
            23 => Ok(OpCode::Negate),
            24 => Ok(OpCode::Print),
            25 => Ok(OpCode::Jump),
            26 => Ok(OpCode::JumpIfFalse),
            27 => Ok(OpCode::Loop),
            28 => Ok(OpCode::Call),
            29 => Ok(OpCode::Invoke),
            30 => Ok(OpCode::SuperInvoke),
            31 => Ok(OpCode::Closure),
            32 => Ok(OpCode::CloseUpValue),
            33 => Ok(OpCode::Return),
            34 => Ok(OpCode::Class),
            35 => Ok(OpCode::Inherit),
            36 => Ok(OpCode::Method),
            other => {
                let mut msg = String::new();
                msg.append("Received invalid opcode: ");
                let digits = decimal_string(other as usize);
                msg.append(digits.as_str());
                Err(msg)
            },
        }
    }
}

/// One byte of code, with the source line it was compiled from.
#[derive(Clone, Copy, Debug, PartialEq, Eq, Structural)]
pub struct Chunk {
    pub line: usize,
    pub op: u8,
}

/// One line of a disassembly listing. For an instruction that loads a
/// constant, the text stops where the constant's own text goes, and
/// `constant` is the constant's index.
pub struct InstructionText {
    pub text: String,
    pub constant: Option<u8>,
    pub next: usize,
}

/// What an [`InstructionText`] holds.
pub struct InstructionView {
    pub text: Seq<char>,
    pub constant: Option<u8>,
    pub next: int,
}

impl View for InstructionText {
    type V = InstructionView;

    open spec fn view(&self) -> InstructionView {
        InstructionView { text: self.text@, constant: self.constant, next: self.next as int }
    }
}

/// `n` zeros.
pub open spec fn zeros(n: int) -> Seq<char> {
    Seq::new(n as nat, |i: int| '0')
}

/// The instruction at `index` is on the same line as the one before it.
pub open spec fn same_line(code: Seq<Chunk>, index: int) -> bool {
    index > 0 && code[index].line == code[index - 1].line
}

/// The start of a listing line: a bar under the previous line's number when
/// the line is the same, else the line number padded with zeros to four
/// digits, and a space.
pub open spec fn line_prefix(code: Seq<Chunk>, index: int) -> Seq<char> {
    if same_line(code, index) {
        "   | "@
    } else {
        let digits = decimal(code[index].line as nat);
        zeros(4 - digits.len()) + digits + " "@
    }
}

/// The name under which the listing shows each instruction.
pub open spec fn listing_name(op: OpCode) -> Seq<char> {
    if op == OpCode::Return {
        "RETURN"@
    } else {
        opcode_name(op)
    }
}

/// The instruction at `index` can be listed: its byte encodes an
/// instruction, a constant load has its operand, and a line number to be
/// shown has at most four digits.
pub open spec fn listable(code: Seq<Chunk>, index: int) -> bool {
    &&& 0 <= index < code.len()
    &&& opcode_of_byte(code[index].op) is Some
    &&& opcode_of_byte(code[index].op) == Some(OpCode::Constant) ==> index + 1 < code.len()
    &&& !same_line(code, index) ==> code[index].line < 10000
}

/// The number of bytes the listing takes for the instruction at `index`: a
/// constant load is listed with its operand, every other byte on its own.
pub open spec fn instruction_size(code: Seq<Chunk>, index: int) -> int {
    if opcode_of_byte(code[index].op) == Some(OpCode::Constant) {
        2
    } else {
        1
    }
}

/// The listing line of the instruction at `index`, and where the next
/// instruction starts.
pub open spec fn listing_line(code: Seq<Chunk>, index: int) -> InstructionView {
    let op = opcode_of_byte(code[index].op).unwrap();
    if op == OpCode::Constant {
        let operand = code[index + 1].op;
        InstructionView {
            text: line_prefix(code, index) + "CONSTANT "@ + decimal(operand as nat) + " "@,
            constant: Some(operand),
            next: index + 2,
        }
    } else {
        InstructionView {
            text: line_prefix(code, index) + listing_name(op),
            constant: None,
            next: index + 1,
        }
    }
}

/// The number of bytes from `offset` to the end of the code.
pub open spec fn bytes_left(code: Seq<Chunk>, offset: int) -> nat {
    if offset < code.len() {
        (code.len() - offset) as nat
    } else {
        0
    }
}

/// Every instruction met when listing from `offset` can be listed.
pub open spec fn listable_from(code: Seq<Chunk>, offset: int) -> bool
    decreases bytes_left(code, offset),
{
    if offset >= code.len() || offset < 0 {
        true
    } else {
        listable(code, offset) && listable_from(code, offset + instruction_size(code, offset))
    }
}

/// The listing from `offset` to the end of the code.
pub open spec fn listing_from(code: Seq<Chunk>, offset: int) -> Seq<InstructionView>
    decreases bytes_left(code, offset),
{
    if offset >= code.len() || offset < 0 {
        seq![]
    } else {
        seq![listing_line(code, offset)] + listing_from(code, offset + instruction_size(code, offset))
    }
}

impl Chunk {
    /// The listing line of the instruction at `index`.
    pub fn disassemble_instruction(code: &Vec<Chunk>, index: usize) -> (r: InstructionText)
        requires
            listable(code@, index as int),
        ensures
            r@ == listing_line(code@, index as int),
    {
        let len = code.len();
        assert(index < len);
        let mut print_val = String::new();
        if index > 0 && code[index].line == code[index - 1].line {
            print_val.append("   | ");
        } else {
            let line = code[index].line;
            let num_str = decimal_string(line);
            let width = decimal_len(line);
            proof {
                crate::text::lemma_decimal_len_bound(line as nat);
                if line >= 10 {
                    crate::text::lemma_decimal_len_bound((line / 10) as nat);
                    if line / 10 >= 10 {
                        crate::text::lemma_decimal_len_bound((line / 100) as nat);
                        if line / 100 >= 10 {
                            crate::text::lemma_decimal_len_bound((line / 1000) as nat);
                            assert(line / 1000 < 10);
                        }
                    }
                }
            }
            let mut k: usize = 0;
            while k < 4 - width
                invariant
                    width == decimal(line as nat).len(),
                    width <= 4,
                    0 <= k <= 4 - width,
                    print_val@ == zeros(k as int),
                decreases 4 - width - k,
            {
                proof {
                    reveal_strlit("0");
                }
                print_val.append("0");
                k = k + 1;
                assert(print_val@ =~= zeros(k as int));
            }
            print_val.append(num_str.as_str());
            print_val.append(" ");
        }
        let instruction = OpCode::try_from(code[index].op);
        match instruction {
            Ok(OpCode::Constant) => {
                assert(opcode_of_byte(code@[index as int].op) == Some(OpCode::Constant));
                let constant = code[index + 1].op;
                print_val.append("CONSTANT ");
                let digits = decimal_string(constant as usize);
                print_val.append(digits.as_str());
                print_val.append(" ");
                InstructionText { text: print_val, constant: Some(constant), next: index + 2 }
            },
            Ok(OpCode::Return) => {
                print_val.append("RETURN");
                InstructionText { text: print_val, constant: None, next: index + 1 }
            },
            Ok(op) => {
                print_val.append(op.as_str());
                InstructionText { text: print_val, constant: None, next: index + 1 }
            },
            Err(_) => InstructionText { text: print_val, constant: None, next: index + 1 },
        }
    }

    /// Whether the whole code can be listed.
    pub fn is_listable(code: &Vec<Chunk>) -> (r: bool)
        ensures
            r == listable_from(code@, 0),
    {
        let mut offset: usize = 0;
        while offset < code.len()
            invariant
                offset <= code.len() ==> (listable_from(code@, 0) == listable_from(code@, offset as int)),
                offset <= code.len(),
            decreases code@.len() - offset,
        {
            let op = OpCode::try_from(code[offset].op);
            let size: usize = match op {
                Err(_) => {
                    return false;
                },
                Ok(OpCode::Constant) => 2,
                Ok(_) => 1,
            };
            if size > code.len() - offset {
                return false;
            }
            if !(offset > 0 && code[offset].line == code[offset - 1].line) && code[offset].line >= 10000 {
                return false;
            }
            offset = offset + size;
        }
        true
    }

    /// The listing of the whole code, instruction by instruction.
    pub fn disassemble_code(code: &Vec<Chunk>) -> (r: Vec<InstructionText>)
        requires
            listable_from(code@, 0),
        ensures
            r@.map_values(|l: InstructionText| l@) == listing_from(code@, 0),
    {
        let mut lines: Vec<InstructionText> = Vec::new();
        let mut offset: usize = 0;
        while offset < code.len()
            invariant
                listable_from(code@, offset as int),
                listing_from(code@, 0) == lines@.map_values(|l: InstructionText| l@)
                    + listing_from(code@, offset as int),
            decreases code@.len() - offset,
        {
            let line = Chunk::disassemble_instruction(code, offset);
            let ghost before = lines@.map_values(|l: InstructionText| l@);
            let ghost v = line@;
            offset = line.next;
            lines.push(line);
            assert(lines@.map_values(|l: InstructionText| l@) =~= before.push(v));
        }
        assert(listing_from(code@, offset as int) =~= Seq::<InstructionView>::empty());
        lines
    }
}

} // verus!
