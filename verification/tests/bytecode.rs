//! Tests of the chunk container, the opcode encoding, and the
//! disassembler.
use stacklang::chunk::newChunk;
use stacklang::compiler::compile;
use stacklang::debug::disassembleChunk;
use stacklang::debug::disassembleInstruction;
use stacklang::debug::printValue;
use stacklang::opcodes::OpCode;
use stacklang::value::Value;

#[test]
fn opcode_bytes_roundtrip() {
    let all = [
        OpCode::OP_CONSTANT,
        OpCode::OP_RETURN,
        OpCode::OP_NEGATE,
        OpCode::OP_IADD,
        OpCode::OP_ISUB,
        OpCode::OP_IMUL,
        OpCode::OP_IDIV,
        OpCode::OP_NIL,
        OpCode::OP_TRUE,
        OpCode::OP_FALSE,
        OpCode::OP_GREATER,
        OpCode::OP_EQUAL,
        OpCode::OP_LESS,
        OpCode::OP_NOT,
        OpCode::OP_PUSH,
        OpCode::OP_POP,
    ];
    for op in all {
        assert_eq!(OpCode::from_byte(op.to_byte()), op);
    }
    assert_eq!(OpCode::OP_CONSTANT.to_byte(), 1);
    assert_eq!(OpCode::OP_RETURN.to_byte(), 2);
    assert_eq!(OpCode::from_byte(0), OpCode::OP_UNKNOWN);
    assert_eq!(OpCode::from_byte(17), OpCode::OP_UNKNOWN);
    assert_eq!(OpCode::from_byte(255), OpCode::OP_UNKNOWN);
}

#[test]
fn chunk_appends_keep_tables_parallel() {
    let mut c = newChunk();
    assert_eq!(c.code.len(), 0);
    c.writeChunk(2, 1);
    assert_eq!(c.code, vec![2]);
    assert_eq!(c.lines, vec![1]);
    c.writeConstant(0x0102, 7);
    assert_eq!(c.code, vec![2, 0x02, 0x01]);
    assert_eq!(c.lines, vec![1, 7, 7]);
    let idx = c.addConstant(Value::INTEGER(9));
    assert_eq!(idx, 0);
    let idx = c.addConstant(Value::NIL);
    assert_eq!(idx, 1);
    assert_eq!(c.constants, vec![Value::INTEGER(9), Value::NIL]);
}

#[test]
fn disassembly_of_addition() {
    let chunk = compile("2 + 3".to_string()).unwrap();
    // Two constant loads, the addition, and the closing return.
    assert_eq!(chunk.code, vec![1, 0, 0, 1, 1, 0, 4, 2]);
    let lines = disassembleChunk(&chunk);
    assert_eq!(lines.len(), 4);
    for line in &lines {
        assert!(!line.contains("Unknown"), "no instruction may be unknown: {line}");
    }
    assert!(lines[0].contains("OP_CONSTANT"));
    assert!(lines[0].contains("'2'"));
    assert!(lines[1].contains("OP_CONSTANT"));
    assert!(lines[1].contains("'3'"));
    assert_eq!(lines[2], "0006    | OP_IADD");
    assert_eq!(lines[3], "0007    | OP_RETURN");
    // The exact first line: offset, source line, padded mnemonic,
    // operand index, and the constant's printed value.
    assert_eq!(lines[0], "0000    1 OP_CONSTANT                 0 '2'");
    assert_eq!(lines[1], "0003    | OP_CONSTANT                 1 '3'");
}

#[test]
fn disassembler_reports_unknown_bytes() {
    let mut c = newChunk();
    c.writeChunk(99, 1);
    let (line, next) = disassembleInstruction(&c, 0);
    assert_eq!(line, "0000    1 Unknown code 99");
    assert_eq!(next, 1);
}

#[test]
fn disassembler_line_column_repeats_as_bar() {
    let mut c = newChunk();
    c.writeChunk(8, 3);
    c.writeChunk(9, 3);
    c.writeChunk(10, 4);
    let lines = disassembleChunk(&c);
    assert_eq!(lines[0], "0000    3 OP_NIL");
    assert_eq!(lines[1], "0001    | OP_TRUE");
    assert_eq!(lines[2], "0002    4 OP_FALSE");
}

#[test]
fn print_value_formats() {
    assert_eq!(printValue(Value::INTEGER(240)), "240");
    assert_eq!(printValue(Value::BOOL(false)), "False");
    assert_eq!(printValue(Value::NIL), "nil");
}
