//! The virtual machine: executes a chunk's instruction stream against a
//! fixed-capacity operand stack. Stack overflow and underflow, operand
//! kind mismatches, arithmetic that leaves the 64-bit range, division by
//! zero, and unknown opcode bytes all halt with a runtime error rather
//! than faulting.
use vstd::prelude::*;

use crate::chunk::{code_valid, le16_value, Chunk};
use crate::compiler::{compile, int_literal_source, int_literal_value, spec_accepts};
use crate::opcodes::{op_from_byte, op_to_byte, OpCode};
use crate::value::{is_falsy, Value};

verus! {

/// The operand stack's fixed capacity.
pub const STACK_MAX: usize = 64000;

/// What a (terminating) execution denotes: a program result produced by
/// the return instruction, or a runtime fault.
#[derive(Copy, Clone, PartialEq, Eq, Structural, Debug)]
pub enum ExecOutcome {
    Finished(Value),
    Trap,
}

/// The result an integer arithmetic opcode computes, `None` when the
/// mathematical result leaves the 64-bit range or divides by zero.
/// Division truncates toward zero.
pub open spec fn int_binop_result(op: OpCode, a: i64, b: i64) -> Option<i64> {
    match op {
        OpCode::OP_IADD => a.checked_add(b),
        OpCode::OP_ISUB => a.checked_sub(b),
        OpCode::OP_IMUL => a.checked_mul(b),
        OpCode::OP_IDIV => a.checked_div(b),
        _ => None,
    }
}

/// The outcome of running `code` against the constant pool `consts`,
/// starting at instruction offset `ip` with the given operand stack.
/// Every instruction advances the offset, so execution of a finite
/// chunk always terminates: with the value handed to the return
/// instruction, or with a trap on the first fault (running off the end
/// of the code, an unknown or operand-less-truncated instruction, a
/// constant index past the pool, stack overflow or underflow, an
/// operand kind mismatch, or integer arithmetic outside the 64-bit
/// range).
pub open spec fn exec_from(code: Seq<u8>, consts: Seq<Value>, ip: int, stack: Seq<Value>) -> ExecOutcome
    decreases code.len() - ip,
{
    if ip < 0 || ip >= code.len() {
        ExecOutcome::Trap
    } else {
        let op = op_from_byte(code[ip]);
        if op == OpCode::OP_RETURN {
            if stack.len() >= 1 {
                ExecOutcome::Finished(stack.last())
            } else {
                ExecOutcome::Trap
            }
        } else if op == OpCode::OP_CONSTANT {
            if ip + 2 < code.len() && le16_value(code[ip + 1], code[ip + 2]) < consts.len()
                && stack.len() < STACK_MAX {
                exec_from(
                    code,
                    consts,
                    ip + 3,
                    stack.push(consts[le16_value(code[ip + 1], code[ip + 2])]),
                )
            } else {
                ExecOutcome::Trap
            }
        } else if op == OpCode::OP_NIL {
            if stack.len() < STACK_MAX {
                exec_from(code, consts, ip + 1, stack.push(Value::NIL))
            } else {
                ExecOutcome::Trap
            }
        } else if op == OpCode::OP_TRUE {
            if stack.len() < STACK_MAX {
                exec_from(code, consts, ip + 1, stack.push(Value::BOOL(true)))
            } else {
                ExecOutcome::Trap
            }
        } else if op == OpCode::OP_FALSE {
            if stack.len() < STACK_MAX {
                exec_from(code, consts, ip + 1, stack.push(Value::BOOL(false)))
            } else {
                ExecOutcome::Trap
            }
        } else if op == OpCode::OP_NOT {
            if stack.len() >= 1 {
                exec_from(
                    code,
                    consts,
                    ip + 1,
                    stack.drop_last().push(Value::BOOL(is_falsy(stack.last()))),
                )
            } else {
                ExecOutcome::Trap
            }
        } else if op == OpCode::OP_NEGATE {
            if stack.len() >= 1 {
                match stack.last() {
                    Value::INTEGER(i) => if i == i64::MIN {
                        ExecOutcome::Trap
                    } else {
                        exec_from(
                            code,
                            consts,
                            ip + 1,
                            stack.drop_last().push(Value::INTEGER((-(i as int)) as i64)),
                        )
                    },
                    _ => ExecOutcome::Trap,
                }
            } else {
                ExecOutcome::Trap
            }
        } else if op == OpCode::OP_EQUAL {
            if stack.len() >= 2 {
                exec_from(
                    code,
                    consts,
                    ip + 1,
                    stack.drop_last().drop_last().push(
                        Value::BOOL(stack[stack.len() - 2] == stack.last()),
                    ),
                )
            } else {
                ExecOutcome::Trap
            }
        } else if op == OpCode::OP_GREATER || op == OpCode::OP_LESS {
            if stack.len() >= 2 {
                match (stack[stack.len() - 2], stack.last()) {
                    (Value::INTEGER(a), Value::INTEGER(b)) => exec_from(
                        code,
                        consts,
                        ip + 1,
                        stack.drop_last().drop_last().push(
                            Value::BOOL(
                                if op == OpCode::OP_GREATER {
                                    a > b
                                } else {
                                    a < b
                                },
                            ),
                        ),
                    ),
                    _ => ExecOutcome::Trap,
                }
            } else {
                ExecOutcome::Trap
            }
        } else if op == OpCode::OP_IADD || op == OpCode::OP_ISUB || op == OpCode::OP_IMUL || op
            == OpCode::OP_IDIV {
            if stack.len() >= 2 {
                match (stack[stack.len() - 2], stack.last()) {
                    (Value::INTEGER(a), Value::INTEGER(b)) => match int_binop_result(op, a, b) {
                        Some(v) => exec_from(
                            code,
                            consts,
                            ip + 1,
                            stack.drop_last().drop_last().push(Value::INTEGER(v)),
                        ),
                        None => ExecOutcome::Trap,
                    },
                    _ => ExecOutcome::Trap,
                }
            } else {
                ExecOutcome::Trap
            }
        } else {
            ExecOutcome::Trap
        }
    }
}

/// The completion status of a run: the program result on success, or
/// which tier of the pipeline failed.
#[derive(Copy, Clone, PartialEq, Eq, Structural, Debug)]
pub enum InterpretResult {
    INTERPRET_OK(Value),
    INTERPRET_COMPILE_ERROR,
    INTERPRET_RUNTIME_ERROR,
}

/// The virtual machine state: the chunk it owns, the instruction
/// pointer, and the operand stack.
pub struct VM {
    pub chunk: Chunk,
    pub ip: usize,
    pub stack: Vec<Value>,
}

impl VM {
    /// A fresh machine over the given chunk, ready to run from the
    /// first instruction with an empty stack.
    pub fn new(chunk: Chunk) -> (vm: VM)
        ensures
            vm.chunk == chunk,
            vm.ip == 0,
            vm.stack@.len() == 0,
    {
        VM { chunk, ip: 0, stack: Vec::new() }
    }

    fn push(&mut self, value: Value)
        requires
            old(self).stack@.len() < STACK_MAX,
        ensures
            final(self).stack@ == old(self).stack@.push(value),
            final(self).chunk == old(self).chunk,
            final(self).ip == old(self).ip,
    {
        self.stack.push(value);
    }

    fn pop(&mut self) -> (v: Value)
        requires
            old(self).stack@.len() >= 1,
        ensures
            v == old(self).stack@.last(),
            final(self).stack@ == old(self).stack@.drop_last(),
            final(self).chunk == old(self).chunk,
            final(self).ip == old(self).ip,
    {
        let v = self.stack.pop();
        match v {
            Some(v) => v,
            None => vstd::pervasive::unreached(),
        }
    }

    fn peek(&mut self, distance: usize) -> (v: Value)
        requires
            distance < old(self).stack@.len(),
        ensures
            *final(self) == *old(self),
            v == old(self).stack@[old(self).stack@.len() - 1 - distance],
    {
        let dist = self.stack.len() - 1 - distance;
        self.stack[dist]
    }

    /// The dispatch loop: reads the opcode at the instruction pointer,
    /// advances, and branches, until the return instruction finishes
    /// with the program result or a fault halts with a runtime error.
    /// The result is exactly what `exec_from` denotes for the starting
    /// state.
    pub fn run(&mut self) -> (r: InterpretResult)
        requires
            old(self).stack@.len() <= STACK_MAX,
        ensures
            final(self).chunk == old(self).chunk,
            ({
                let out = exec_from(
                    old(self).chunk.code@,
                    old(self).chunk.constants@,
                    old(self).ip as int,
                    old(self).stack@,
                );
                match r {
                    InterpretResult::INTERPRET_OK(v) => out == ExecOutcome::Finished(v),
                    InterpretResult::INTERPRET_RUNTIME_ERROR => out == ExecOutcome::Trap,
                    InterpretResult::INTERPRET_COMPILE_ERROR => false,
                }
            }),
    {
        if self.ip >= self.chunk.code.len() {
            return InterpretResult::INTERPRET_RUNTIME_ERROR;
        }
        loop
            invariant_except_break
                self.chunk == old(self).chunk,
                self.ip <= self.chunk.code@.len(),
                self.stack@.len() <= STACK_MAX,
                exec_from(
                    self.chunk.code@,
                    self.chunk.constants@,
                    self.ip as int,
                    self.stack@,
                ) == exec_from(
                    old(self).chunk.code@,
                    old(self).chunk.constants@,
                    old(self).ip as int,
                    old(self).stack@,
                ),
            ensures
                self.chunk == old(self).chunk,
                false,
            decreases self.chunk.code@.len() - self.ip,
        {
            let ip0 = self.ip;
            if ip0 >= self.chunk.code.len() {
                return InterpretResult::INTERPRET_RUNTIME_ERROR;
            }
            let byte = self.chunk.code[ip0];
            let instruction = OpCode::from_byte(byte);
            match instruction {
                OpCode::OP_RETURN => {
                    if self.stack.len() < 1 {
                        return InterpretResult::INTERPRET_RUNTIME_ERROR;
                    }
                    let v = self.pop();
                    return InterpretResult::INTERPRET_OK(v);
                },
                OpCode::OP_CONSTANT => {
                    if self.chunk.code.len() - ip0 < 3 {
                        return InterpretResult::INTERPRET_RUNTIME_ERROR;
                    }
                    let lo = self.chunk.code[ip0 + 1];
                    let hi = self.chunk.code[ip0 + 2];
                    let idx: usize = lo as usize + 256 * (hi as usize);
                    if idx >= self.chunk.constants.len() {
                        return InterpretResult::INTERPRET_RUNTIME_ERROR;
                    }
                    if self.stack.len() >= STACK_MAX {
                        return InterpretResult::INTERPRET_RUNTIME_ERROR;
                    }
                    let c = self.chunk.constants[idx];
                    self.push(c);
                    self.ip = ip0 + 3;
                },
                OpCode::OP_NIL => {
                    if self.stack.len() >= STACK_MAX {
                        return InterpretResult::INTERPRET_RUNTIME_ERROR;
                    }
                    self.push(Value::NIL);
                    self.ip = ip0 + 1;
                },
                OpCode::OP_TRUE => {
                    if self.stack.len() >= STACK_MAX {
                        return InterpretResult::INTERPRET_RUNTIME_ERROR;
                    }
                    self.push(Value::BOOL(true));
                    self.ip = ip0 + 1;
                },
                OpCode::OP_FALSE => {
                    if self.stack.len() >= STACK_MAX {
                        return InterpretResult::INTERPRET_RUNTIME_ERROR;
                    }
                    self.push(Value::BOOL(false));
                    self.ip = ip0 + 1;
                },
                OpCode::OP_NOT => {
                    if self.stack.len() < 1 {
                        return InterpretResult::INTERPRET_RUNTIME_ERROR;
                    }
                    let v = self.pop();
                    self.push(Value::BOOL(v.is_false()));
                    self.ip = ip0 + 1;
                },
                OpCode::OP_NEGATE => {
                    if self.stack.len() < 1 {
                        return InterpretResult::INTERPRET_RUNTIME_ERROR;
                    }
                    let v = self.pop();
                    match v {
                        Value::INTEGER(i) => {
                            if i == i64::MIN {
                                return InterpretResult::INTERPRET_RUNTIME_ERROR;
                            }
                            self.push(Value::INTEGER(-i));
                            self.ip = ip0 + 1;
                        },
                        _ => {
                            return InterpretResult::INTERPRET_RUNTIME_ERROR;
                        },
                    }
                },
                OpCode::OP_EQUAL => {
                    if self.stack.len() < 2 {
                        return InterpretResult::INTERPRET_RUNTIME_ERROR;
                    }
                    let y = self.pop();
                    let x = self.pop();
                    self.push(Value::BOOL(x == y));
                    self.ip = ip0 + 1;
                },
                OpCode::OP_GREATER => {
                    if self.stack.len() < 2 {
                        return InterpretResult::INTERPRET_RUNTIME_ERROR;
                    }
                    let y = self.pop();
                    let x = self.pop();
                    match (x, y) {
                        (Value::INTEGER(a), Value::INTEGER(b)) => {
                            self.push(Value::BOOL(a > b));
                            self.ip = ip0 + 1;
                        },
                        _ => {
                            return InterpretResult::INTERPRET_RUNTIME_ERROR;
                        },
                    }
                },
                OpCode::OP_LESS => {
                    if self.stack.len() < 2 {
                        return InterpretResult::INTERPRET_RUNTIME_ERROR;
                    }
                    let y = self.pop();
                    let x = self.pop();
                    match (x, y) {
                        (Value::INTEGER(a), Value::INTEGER(b)) => {
                            self.push(Value::BOOL(a < b));
                            self.ip = ip0 + 1;
                        },
                        _ => {
                            return InterpretResult::INTERPRET_RUNTIME_ERROR;
                        },
                    }
                },
                OpCode::OP_IADD | OpCode::OP_ISUB | OpCode::OP_IMUL | OpCode::OP_IDIV => {
                    if self.stack.len() < 2 {
                        return InterpretResult::INTERPRET_RUNTIME_ERROR;
                    }
                    let y = self.pop();
                    let x = self.pop();
                    match (x, y) {
                        (Value::INTEGER(a), Value::INTEGER(b)) => {
                            let computed = match instruction {
                                OpCode::OP_IADD => a.checked_add(b),
                                OpCode::OP_ISUB => a.checked_sub(b),
                                OpCode::OP_IMUL => a.checked_mul(b),
                                _ => a.checked_div(b),
                            };
                            match computed {
                                Some(v) => {
                                    self.push(Value::INTEGER(v));
                                    self.ip = ip0 + 1;
                                },
                                None => {
                                    return InterpretResult::INTERPRET_RUNTIME_ERROR;
                                },
                            }
                        },
                        _ => {
                            return InterpretResult::INTERPRET_RUNTIME_ERROR;
                        },
                    }
                },
                _ => {
                    return InterpretResult::INTERPRET_RUNTIME_ERROR;
                },
            }
        }
    }
}

/// Compiles and runs a source text: a compile failure reports a compile
/// error and the VM is never started; otherwise the program result (or
/// runtime error) is exactly what the chunk's code denotes. A returned
/// value always stems from running a well-formed instruction stream
/// that ends in the return instruction.
pub fn interpret(source: String) -> (r: InterpretResult)
    requires
        source@.len() < usize::MAX,
    ensures
        int_literal_source(source@) ==> r == InterpretResult::INTERPRET_OK(
            Value::INTEGER(int_literal_value(source@) as i64),
        ),
        (crate::scanner::ws_end(source@, 0) < source@.len() && crate::scanner::lex_at(
            source@,
            crate::scanner::ws_end(source@, 0),
        ).0 == crate::scanner::TokenType::T_ERROR) ==> r
            == InterpretResult::INTERPRET_COMPILE_ERROR,
        spec_accepts(source@) is None <==> r == InterpretResult::INTERPRET_COMPILE_ERROR,
        r matches InterpretResult::INTERPRET_OK(v) ==> exists|code: Seq<u8>, consts: Seq<Value>|
            code.len() >= 1 && code.last() == op_to_byte(OpCode::OP_RETURN) && code_valid(
                code,
                consts.len() as int,
                0,
            ) && #[trigger] exec_from(code, consts, 0, Seq::<Value>::empty())
                == ExecOutcome::Finished(v),
        r matches InterpretResult::INTERPRET_RUNTIME_ERROR ==> exists|
            code: Seq<u8>,
            consts: Seq<Value>,
        |
            code.len() >= 1 && code.last() == op_to_byte(OpCode::OP_RETURN) && code_valid(
                code,
                consts.len() as int,
                0,
            ) && #[trigger] exec_from(code, consts, 0, Seq::<Value>::empty()) == ExecOutcome::Trap,
{
    let ghost src = source@;
    let res = compile(source);
    match res {
        Err(_) => InterpretResult::INTERPRET_COMPILE_ERROR,
        Ok(chunk) => {
            let mut vm = VM::new(chunk);
            let ghost gcode = vm.chunk.code@;
            let ghost gconsts = vm.chunk.constants@;
            let ghost st0 = vm.stack@;
            let r = vm.run();
            proof {
                assert(st0 =~= Seq::<Value>::empty());
                assert(exec_from(gcode, gconsts, 0, Seq::<Value>::empty()) == exec_from(
                    gcode,
                    gconsts,
                    0,
                    st0,
                ));
                if int_literal_source(src) {
                    let v = Value::INTEGER(int_literal_value(src) as i64);
                    assert(gcode =~= seq![1u8, 0u8, 0u8, 2u8]);
                    assert(gconsts =~= seq![v]);
                    lemma_exec_const_return(v);
                }
            }
            r
        },
    }
}

/// A chunk of one constant load and a return hands back exactly that
/// constant as the program result.
pub proof fn lemma_exec_const_return(v: Value)
    ensures
        exec_from(seq![1u8, 0u8, 0u8, 2u8], seq![v], 0, Seq::<Value>::empty())
            == ExecOutcome::Finished(v),
{
    let code = seq![1u8, 0u8, 0u8, 2u8];
    let consts = seq![v];
    let stack1 = Seq::<Value>::empty().push(v);
    assert(exec_from(code, consts, 3, stack1) == ExecOutcome::Finished(v));
    assert(le16_value(code[1], code[2]) == 0);
    assert(exec_from(code, consts, 0, Seq::<Value>::empty()) == exec_from(code, consts, 3, stack1));
}

/// Stack discipline: a program whose first instruction pops an operand
/// (return, negate, logical not, equality, comparison, or arithmetic)
/// traps at once when started on an empty stack — no value is ever read
/// from beyond the stack.
pub proof fn lemma_stack_underflow_traps(code: Seq<u8>, consts: Seq<Value>)
    requires
        code.len() > 0,
        ({
            let op = op_from_byte(code[0]);
            ||| op == OpCode::OP_RETURN
            ||| op == OpCode::OP_NEGATE
            ||| op == OpCode::OP_NOT
            ||| op == OpCode::OP_EQUAL
            ||| op == OpCode::OP_GREATER
            ||| op == OpCode::OP_LESS
            ||| op == OpCode::OP_IADD
            ||| op == OpCode::OP_ISUB
            ||| op == OpCode::OP_IMUL
            ||| op == OpCode::OP_IDIV
        }),
    ensures
        exec_from(code, consts, 0, Seq::<Value>::empty()) == ExecOutcome::Trap,
{
}

} // verus!
