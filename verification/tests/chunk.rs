use lox::chunk::{Chunk, OpCode};

#[test]
fn opcode_bytes_round_trip() {
    for b in 0..37u8 {
        let op = OpCode::try_from(b).unwrap();
        assert_eq!(op.to_byte(), b);
    }
    assert_eq!(OpCode::try_from(37).unwrap_err(), "Received invalid opcode: 37");
    assert_eq!(OpCode::try_from(255).unwrap_err(), "Received invalid opcode: 255");
    assert_eq!(OpCode::JumpIfFalse.as_str(), "JumpIfFalse");
    assert_eq!(OpCode::Return.to_byte(), 33);
}

fn c(line: usize, op: u8) -> Chunk {
    Chunk { line, op }
}

#[test]
fn disassembly_lines() {
    let code = vec![
        c(1, OpCode::Constant.to_byte()),
        c(1, 7),
        c(1, OpCode::Negate.to_byte()),
        c(12345 % 10000, OpCode::Return.to_byte()),
    ];
    let first = Chunk::disassemble_instruction(&code, 0);
    assert_eq!(first.text, "0001 CONSTANT 7 ");
    assert_eq!(first.constant, Some(7));
    assert_eq!(first.next, 2);
    let second = Chunk::disassemble_instruction(&code, 2);
    assert_eq!(second.text, "   | Negate");
    assert_eq!(second.constant, None);
    assert_eq!(second.next, 3);
    let third = Chunk::disassemble_instruction(&code, 3);
    assert_eq!(third.text, "2345 RETURN");
    let all = Chunk::disassemble_code(&code);
    assert_eq!(all.len(), 3);
    assert_eq!(all[1].text, "   | Negate");
}
