//! The bytecode container: instruction bytes, a parallel line-number
//! table (one entry per emitted byte), and a constant pool of values.
//! A chunk is created empty, mutated only by appends during compilation,
//! and read-only once ownership passes to the VM.
use vstd::prelude::*;

use crate::opcodes::{op_from_byte, OpCode};
use crate::value::Value;

verus! {

/// The largest number of entries a constant pool may hold: indices must
/// fit in the 16-bit operand of the constant-load instruction.
pub const MAX_CONSTANTS: usize = 65536;

/// The two-byte little-endian encoding of a 16-bit value.
pub open spec fn le16_bytes(x: int) -> Seq<u8> {
    seq![(x % 256) as u8, ((x / 256) % 256) as u8]
}

/// The value encoded by a little-endian byte pair.
pub open spec fn le16_value(lo: u8, hi: u8) -> int {
    lo + 256 * hi
}

/// Whether the instruction stream `code` is well formed from offset `i`
/// on: every instruction byte decodes to a known opcode, and every
/// constant load carries its two operand bytes and indexes below
/// `nconsts`.
pub open spec fn code_valid(code: Seq<u8>, nconsts: int, i: int) -> bool
    decreases code.len() - i,
{
    if i >= code.len() {
        true
    } else {
        let op = op_from_byte(code[i]);
        if op == OpCode::OP_UNKNOWN {
            false
        } else if op == OpCode::OP_CONSTANT {
            &&& i + 3 <= code.len()
            &&& le16_value(code[i + 1], code[i + 2]) < nconsts
            &&& code_valid(code, nconsts, i + 3)
        } else {
            code_valid(code, nconsts, i + 1)
        }
    }
}

/// Validity from an offset inside the appended part depends only on the
/// appended part.
pub proof fn lemma_code_valid_shift(a: Seq<u8>, b: Seq<u8>, nconsts: int, j: int)
    requires
        0 <= j,
    ensures
        code_valid(a + b, nconsts, a.len() + j) == code_valid(b, nconsts, j),
    decreases b.len() - j,
{
    if j < b.len() {
        assert((a + b)[a.len() + j] == b[j]);
        if op_from_byte(b[j]) == OpCode::OP_CONSTANT {
            if j + 3 <= b.len() {
                assert((a + b)[a.len() + j + 1] == b[j + 1]);
                assert((a + b)[a.len() + j + 2] == b[j + 2]);
                lemma_code_valid_shift(a, b, nconsts, j + 3);
            }
        } else {
            lemma_code_valid_shift(a, b, nconsts, j + 1);
        }
    }
}

/// Appending a well-formed instruction sequence to a well-formed one
/// keeps the whole stream well formed.
pub proof fn lemma_code_valid_append(a: Seq<u8>, b: Seq<u8>, nconsts: int, i: int)
    requires
        0 <= i <= a.len(),
        code_valid(a, nconsts, i),
        code_valid(b, nconsts, 0),
    ensures
        code_valid(a + b, nconsts, i),
    decreases a.len() - i,
{
    if i == a.len() {
        lemma_code_valid_shift(a, b, nconsts, 0);
    } else {
        assert((a + b)[i] == a[i]);
        let op = op_from_byte(a[i]);
        if op == OpCode::OP_CONSTANT {
            assert((a + b)[i + 1] == a[i + 1]);
            assert((a + b)[i + 2] == a[i + 2]);
            lemma_code_valid_append(a, b, nconsts, i + 3);
        } else {
            lemma_code_valid_append(a, b, nconsts, i + 1);
        }
    }
}

/// A stream valid against a pool stays valid when the pool only grows.
pub proof fn lemma_code_valid_grow(code: Seq<u8>, n: int, m: int, i: int)
    requires
        code_valid(code, n, i),
        n <= m,
    ensures
        code_valid(code, m, i),
    decreases code.len() - i,
{
    if i < code.len() {
        let op = op_from_byte(code[i]);
        if op == OpCode::OP_CONSTANT {
            lemma_code_valid_grow(code, n, m, i + 3);
        } else {
            lemma_code_valid_grow(code, n, m, i + 1);
        }
    }
}

/// One compiled bytecode unit.
pub struct Chunk {
    /// The instruction bytes, opcodes and inline operands alike.
    pub code: Vec<u8>,
    /// One source line number per byte of `code`.
    pub lines: Vec<usize>,
    /// The constant pool, addressed by 16-bit indices in the code.
    pub constants: Vec<Value>,
}

impl Chunk {
    /// The container invariant: the line table runs in parallel with the
    /// code bytes.
    pub open spec fn wf(self) -> bool {
        self.code@.len() == self.lines@.len()
    }

    /// Appends one instruction byte together with its source line.
    pub fn writeChunk(&mut self, byte: u8, line: usize)
        ensures
            final(self).code@ == old(self).code@.push(byte),
            final(self).lines@ == old(self).lines@.push(line),
            final(self).constants == old(self).constants,
    {
        self.code.push(byte);
        self.lines.push(line);
    }

    /// Appends the two-byte little-endian encoding of a 16-bit operand,
    /// recording the same line for both bytes.
    pub fn writeConstant(&mut self, Index: u16, line: usize)
        ensures
            final(self).code@ == old(self).code@ + le16_bytes(Index as int),
            final(self).lines@ == old(self).lines@.push(line).push(line),
            final(self).constants == old(self).constants,
    {
        let lo: u8 = (Index % 256) as u8;
        let hi: u8 = (Index / 256) as u8;
        self.code.push(lo);
        self.code.push(hi);
        self.lines.push(line);
        self.lines.push(line);
        proof {
            assert(self.code@ =~= old(self).code@ + le16_bytes(Index as int));
        }
    }

    /// Appends a value to the constant pool and returns its index.
    pub fn addConstant(&mut self, value: Value) -> (idx: usize)
        ensures
            final(self).constants@ == old(self).constants@.push(value),
            idx == old(self).constants@.len(),
            final(self).code == old(self).code,
            final(self).lines == old(self).lines,
    {
        let idx = self.constants.len();
        self.constants.push(value);
        idx
    }
}

/// A fresh, empty chunk.
pub fn newChunk() -> (c: Chunk)
    ensures
        c.wf(),
        c.code@.len() == 0,
        c.lines@.len() == 0,
        c.constants@.len() == 0,
{
    Chunk { code: Vec::new(), lines: Vec::new(), constants: Vec::new() }
}

/// A decoded little-endian pair recovers the encoded value.
pub proof fn lemma_le16_roundtrip(x: int)
    requires
        0 <= x < 65536,
    ensures
        le16_value(le16_bytes(x)[0], le16_bytes(x)[1]) == x,
{
}

} // verus!
