//! The instruction set: a closed enumeration of opcodes, each mapped
//! bijectively to one byte.
use vstd::prelude::*;

verus! {

/// One bytecode instruction mnemonic. Every opcode occupies a single
/// byte; only `OP_CONSTANT` takes an operand (a 16-bit little-endian
/// constant-pool index).
#[derive(Copy, Clone, PartialEq, Eq, Structural, Debug)]
pub enum OpCode {
    OP_CONSTANT,
    OP_RETURN,
    OP_NEGATE,
    OP_IADD,
    OP_ISUB,
    OP_IMUL,
    OP_IDIV,
    OP_NIL,
    OP_TRUE,
    OP_FALSE,
    OP_GREATER,
    OP_EQUAL,
    OP_LESS,
    OP_NOT,
    OP_PUSH,
    OP_POP,
    OP_UNKNOWN,
}

/// The byte encoding an opcode; `OP_UNKNOWN` encodes as 0.
pub open spec fn op_to_byte(op: OpCode) -> u8 {
    match op {
        OpCode::OP_CONSTANT => 1,
        OpCode::OP_RETURN => 2,
        OpCode::OP_NEGATE => 3,
        OpCode::OP_IADD => 4,
        OpCode::OP_ISUB => 5,
        OpCode::OP_IMUL => 6,
        OpCode::OP_IDIV => 7,
        OpCode::OP_NIL => 8,
        OpCode::OP_TRUE => 9,
        OpCode::OP_FALSE => 10,
        OpCode::OP_GREATER => 11,
        OpCode::OP_EQUAL => 12,
        OpCode::OP_LESS => 13,
        OpCode::OP_NOT => 14,
        OpCode::OP_PUSH => 15,
        OpCode::OP_POP => 16,
        OpCode::OP_UNKNOWN => 0,
    }
}

/// The opcode a byte decodes to; bytes outside the instruction set
/// decode to `OP_UNKNOWN`.
pub open spec fn op_from_byte(b: u8) -> OpCode {
    if b == 1 {
        OpCode::OP_CONSTANT
    } else if b == 2 {
        OpCode::OP_RETURN
    } else if b == 3 {
        OpCode::OP_NEGATE
    } else if b == 4 {
        OpCode::OP_IADD
    } else if b == 5 {
        OpCode::OP_ISUB
    } else if b == 6 {
        OpCode::OP_IMUL
    } else if b == 7 {
        OpCode::OP_IDIV
    } else if b == 8 {
        OpCode::OP_NIL
    } else if b == 9 {
        OpCode::OP_TRUE
    } else if b == 10 {
        OpCode::OP_FALSE
    } else if b == 11 {
        OpCode::OP_GREATER
    } else if b == 12 {
        OpCode::OP_EQUAL
    } else if b == 13 {
        OpCode::OP_LESS
    } else if b == 14 {
        OpCode::OP_NOT
    } else if b == 15 {
        OpCode::OP_PUSH
    } else if b == 16 {
        OpCode::OP_POP
    } else {
        OpCode::OP_UNKNOWN
    }
}

impl OpCode {
    /// The byte this opcode is emitted as.
    pub fn to_byte(&self) -> (b: u8)
        ensures
            b == op_to_byte(*self),
    {
        match self {
            OpCode::OP_CONSTANT => 1,
            OpCode::OP_RETURN => 2,
            OpCode::OP_NEGATE => 3,
            OpCode::OP_IADD => 4,
            OpCode::OP_ISUB => 5,
            OpCode::OP_IMUL => 6,
            OpCode::OP_IDIV => 7,
            OpCode::OP_NIL => 8,
            OpCode::OP_TRUE => 9,
            OpCode::OP_FALSE => 10,
            OpCode::OP_GREATER => 11,
            OpCode::OP_EQUAL => 12,
            OpCode::OP_LESS => 13,
            OpCode::OP_NOT => 14,
            OpCode::OP_PUSH => 15,
            OpCode::OP_POP => 16,
            OpCode::OP_UNKNOWN => 0,
        }
    }

    /// The opcode a fetched byte decodes to.
    pub fn from_byte(b: u8) -> (op: OpCode)
        ensures
            op == op_from_byte(b),
    {
        if b == 1 {
            OpCode::OP_CONSTANT
        } else if b == 2 {
            OpCode::OP_RETURN
        } else if b == 3 {
            OpCode::OP_NEGATE
        } else if b == 4 {
            OpCode::OP_IADD
        } else if b == 5 {
            OpCode::OP_ISUB
        } else if b == 6 {
            OpCode::OP_IMUL
        } else if b == 7 {
            OpCode::OP_IDIV
        } else if b == 8 {
            OpCode::OP_NIL
        } else if b == 9 {
            OpCode::OP_TRUE
        } else if b == 10 {
            OpCode::OP_FALSE
        } else if b == 11 {
            OpCode::OP_GREATER
        } else if b == 12 {
            OpCode::OP_EQUAL
        } else if b == 13 {
            OpCode::OP_LESS
        } else if b == 14 {
            OpCode::OP_NOT
        } else if b == 15 {
            OpCode::OP_PUSH
        } else if b == 16 {
            OpCode::OP_POP
        } else {
            OpCode::OP_UNKNOWN
        }
    }
}

/// Decoding inverts encoding: every opcode other than `OP_UNKNOWN` is
/// recovered exactly from the byte it is emitted as.
pub proof fn lemma_opcode_roundtrip(op: OpCode)
    requires
        op != OpCode::OP_UNKNOWN,
    ensures
        op_from_byte(op_to_byte(op)) == op,
{
}

/// Encoding inverts decoding on the instruction-set range: every byte in
/// `1..=16` is recovered exactly from the opcode it decodes to.
pub proof fn lemma_byte_roundtrip(b: u8)
    requires
        1 <= b <= 16,
    ensures
        op_to_byte(op_from_byte(b)) == b,
{
}

} // verus!
