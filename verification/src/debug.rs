//! The disassembler: a pure, read-only formatter over a chunk, one line
//! of text per instruction — the zero-padded byte offset, the source
//! line (shown as `   | ` when it repeats the previous byte's line), the
//! opcode's mnemonic, and, for a constant load, the resolved index and
//! the constant's printed value. Unknown opcode bytes are reported as
//! such, never treated as fatal.
use vstd::prelude::*;

use crate::chunk::{le16_value, Chunk};
use crate::opcodes::{op_from_byte, OpCode};
use crate::text::{chars_to_string, dec_digits, pad_left, pad_left_chars, pad_right,
    pad_right_chars, str_chars, u64_digits};
use crate::value::{value_text, Value};

verus! {

/// The mnemonic of an opcode.
pub open spec fn op_name(op: OpCode) -> Seq<char> {
    match op {
        OpCode::OP_CONSTANT => "OP_CONSTANT"@,
        OpCode::OP_RETURN => "OP_RETURN"@,
        OpCode::OP_NEGATE => "OP_NEGATE"@,
        OpCode::OP_IADD => "OP_IADD"@,
        OpCode::OP_ISUB => "OP_ISUB"@,
        OpCode::OP_IMUL => "OP_IMUL"@,
        OpCode::OP_IDIV => "OP_IDIV"@,
        OpCode::OP_NIL => "OP_NIL"@,
        OpCode::OP_TRUE => "OP_TRUE"@,
        OpCode::OP_FALSE => "OP_FALSE"@,
        OpCode::OP_GREATER => "OP_GREATER"@,
        OpCode::OP_EQUAL => "OP_EQUAL"@,
        OpCode::OP_LESS => "OP_LESS"@,
        OpCode::OP_NOT => "OP_NOT"@,
        OpCode::OP_PUSH => "OP_PUSH"@,
        OpCode::OP_POP => "OP_POP"@,
        OpCode::OP_UNKNOWN => "OP_UNKNOWN"@,
    }
}

/// The source-line column of an instruction line: blank when the line
/// repeats the previous byte's, else the number right-aligned to four
/// columns; a trailing space either way.
pub open spec fn line_col(lines: Seq<usize>, offset: int) -> Seq<char> {
    if offset > 0 && lines[offset] == lines[offset - 1] {
        "   | "@
    } else {
        pad_left(dec_digits(lines[offset] as int), 4, ' ') + " "@
    }
}

/// The text of the instruction line at `offset`: offset column, source
/// line column, then the mnemonic — for a constant load also the
/// operand index and the constant's printed value, and for an
/// unrecognized byte a report of it.
pub open spec fn disasm_line(c: Chunk, offset: int) -> Seq<char> {
    let head = pad_left(dec_digits(offset), 4, '0') + " "@ + line_col(c.lines@, offset);
    let op = op_from_byte(c.code@[offset]);
    if op == OpCode::OP_UNKNOWN {
        head + "Unknown code "@ + dec_digits(c.code@[offset] as int)
    } else if op == OpCode::OP_CONSTANT {
        if offset + 2 < c.code@.len() {
            let idx = le16_value(c.code@[offset + 1], c.code@[offset + 2]);
            if idx < c.constants@.len() {
                head + pad_right(op_name(op), 24, ' ') + " "@ + pad_left(
                    dec_digits(idx),
                    4,
                    ' ',
                ) + " '"@ + value_text(c.constants@[idx]) + "'"@
            } else {
                head + op_name(op) + " <no such constant>"@
            }
        } else {
            head + op_name(op) + " <truncated>"@
        }
    } else {
        head + op_name(op)
    }
}

/// The offset of the next instruction after the one at `offset`: three
/// bytes past a constant load that carries its operand, one byte past
/// anything else.
pub open spec fn disasm_next(c: Chunk, offset: int) -> int {
    if op_from_byte(c.code@[offset]) == OpCode::OP_CONSTANT && offset + 2 < c.code@.len() {
        offset + 3
    } else {
        offset + 1
    }
}

/// The disassembly of the whole chunk from `offset` on, one line per
/// instruction.
pub open spec fn chunk_lines(c: Chunk, offset: int) -> Seq<Seq<char>>
    decreases c.code@.len() - offset,
{
    if offset < 0 || offset >= c.code@.len() {
        Seq::<Seq<char>>::empty()
    } else {
        seq![disasm_line(c, offset)] + chunk_lines(c, disasm_next(c, offset))
    }
}

/// Every instruction reached from `offset` decodes to a known opcode,
/// and every constant load carries its operand and resolves inside the
/// pool — so the disassembly reports nothing unknown, truncated, or
/// missing.
pub open spec fn disasm_all_known(c: Chunk, offset: int) -> bool
    decreases c.code@.len() - offset,
{
    if offset < 0 || offset >= c.code@.len() {
        true
    } else {
        let op = op_from_byte(c.code@[offset]);
        &&& op != OpCode::OP_UNKNOWN
        &&& (op == OpCode::OP_CONSTANT ==> offset + 2 < c.code@.len() && le16_value(
            c.code@[offset + 1],
            c.code@[offset + 2],
        ) < c.constants@.len())
        &&& disasm_all_known(c, disasm_next(c, offset))
    }
}

/// A chunk whose code is a well-formed instruction stream (as every
/// chunk the compiler returns is) disassembles cleanly: no instruction
/// reached from the start is unknown, truncated, or pointing past the
/// constant pool.
pub proof fn lemma_valid_chunk_disassembles_known(c: Chunk, offset: int)
    requires
        crate::chunk::code_valid(c.code@, c.constants@.len() as int, offset),
        0 <= offset,
    ensures
        disasm_all_known(c, offset),
    decreases c.code@.len() - offset,
{
    if offset < c.code@.len() {
        let op = op_from_byte(c.code@[offset]);
        if op == OpCode::OP_CONSTANT {
            lemma_valid_chunk_disassembles_known(c, offset + 3);
        } else {
            lemma_valid_chunk_disassembles_known(c, offset + 1);
        }
    }
}

/// The printed form of a value.
pub fn printValue(val: Value) -> (s: String)
    ensures
        s@ == value_text(val),
{
    val.to_string()
}

/// Formats the single instruction at `offset` and returns its line of
/// text together with the offset of the next instruction.
pub fn disassembleInstruction(chunk: &Chunk, offset: usize) -> (r: (String, usize))
    requires
        chunk.wf(),
        offset < chunk.code@.len(),
    ensures
        r.0@ == disasm_line(*chunk, offset as int),
        r.1 as int == disasm_next(*chunk, offset as int),
        offset < r.1 <= chunk.code@.len(),
{
    let code_len = chunk.code.len();
    proof {
        assert(offset + 1 <= code_len);
    }
    let offv = u64_digits(offset as u64);
    let offp = pad_left_chars(&offv, 4, '0');
    let mut line = chars_to_string(&offp);
    line.append(" ");
    if offset > 0 && chunk.lines[offset] == chunk.lines[offset - 1] {
        line.append("   | ");
    } else {
        let lv = u64_digits(chunk.lines[offset] as u64);
        let lp = pad_left_chars(&lv, 4, ' ');
        let ls = chars_to_string(&lp);
        line.append(ls.as_str());
        line.append(" ");
    }
    let byte = chunk.code[offset];
    let op = OpCode::from_byte(byte);
    match op {
        OpCode::OP_UNKNOWN => {
            line.append("Unknown code ");
            let bv = u64_digits(byte as u64);
            let bs = chars_to_string(&bv);
            line.append(bs.as_str());
            proof {
                assert(line@ =~= disasm_line(*chunk, offset as int));
            }
            (line, offset + 1)
        },
        OpCode::OP_CONSTANT => {
            if code_len - offset < 3 {
                line.append("OP_CONSTANT <truncated>");
                proof {
                    assert("OP_CONSTANT"@ + " <truncated>"@ =~= "OP_CONSTANT <truncated>"@) by {
                        reveal_strlit("OP_CONSTANT");
                        reveal_strlit(" <truncated>");
                        reveal_strlit("OP_CONSTANT <truncated>");
                    }
                    assert(line@ =~= disasm_line(*chunk, offset as int));
                }
                return (line, offset + 1);
            }
            let lo = chunk.code[offset + 1];
            let hi = chunk.code[offset + 2];
            let idx: usize = lo as usize + 256 * (hi as usize);
            if idx >= chunk.constants.len() {
                line.append("OP_CONSTANT <no such constant>");
                proof {
                    assert("OP_CONSTANT"@ + " <no such constant>"@
                        =~= "OP_CONSTANT <no such constant>"@) by {
                        reveal_strlit("OP_CONSTANT");
                        reveal_strlit(" <no such constant>");
                        reveal_strlit("OP_CONSTANT <no such constant>");
                    }
                    assert(line@ =~= disasm_line(*chunk, offset as int));
                }
                return (line, offset + 3);
            }
            let namev = str_chars("OP_CONSTANT");
            let namep = pad_right_chars(&namev, 24, ' ');
            let names = chars_to_string(&namep);
            line.append(names.as_str());
            line.append(" ");
            let idxv = u64_digits(idx as u64);
            let idxp = pad_left_chars(&idxv, 4, ' ');
            let idxs = chars_to_string(&idxp);
            line.append(idxs.as_str());
            line.append(" '");
            let vs = chunk.constants[idx].to_string();
            line.append(vs.as_str());
            line.append("'");
            proof {
                assert(line@ =~= disasm_line(*chunk, offset as int));
            }
            (line, offset + 3)
        },
        _ => {
            let name: &str = match op {
                OpCode::OP_RETURN => "OP_RETURN",
                OpCode::OP_NEGATE => "OP_NEGATE",
                OpCode::OP_IADD => "OP_IADD",
                OpCode::OP_ISUB => "OP_ISUB",
                OpCode::OP_IMUL => "OP_IMUL",
                OpCode::OP_IDIV => "OP_IDIV",
                OpCode::OP_NIL => "OP_NIL",
                OpCode::OP_TRUE => "OP_TRUE",
                OpCode::OP_FALSE => "OP_FALSE",
                OpCode::OP_GREATER => "OP_GREATER",
                OpCode::OP_EQUAL => "OP_EQUAL",
                OpCode::OP_LESS => "OP_LESS",
                OpCode::OP_NOT => "OP_NOT",
                OpCode::OP_PUSH => "OP_PUSH",
                _ => "OP_POP",
            };
            line.append(name);
            proof {
                assert(line@ =~= disasm_line(*chunk, offset as int));
            }
            (line, offset + 1)
        },
    }
}

/// Disassembles a whole chunk into one line of text per instruction.
pub fn disassembleChunk(chunk: &Chunk) -> (r: Vec<String>)
    requires
        chunk.wf(),
    ensures
        r.deep_view() == chunk_lines(*chunk, 0),
{
    let mut r: Vec<String> = Vec::new();
    let mut i: usize = 0;
    #[verifier::loop_isolation(false)]
    while i < chunk.code.len()
        invariant
            0 <= i,
            r.deep_view() + chunk_lines(*chunk, i as int) == chunk_lines(*chunk, 0),
        decreases chunk.code@.len() - i,
    {
        let (line, next) = disassembleInstruction(chunk, i);
        r.push(line);
        i = next;
        proof {
            assert(r.deep_view() + chunk_lines(*chunk, i as int) =~~= chunk_lines(*chunk, 0));
        }
    }
    proof {
        assert(r.deep_view() =~~= chunk_lines(*chunk, 0));
    }
    r
}

} // verus!
