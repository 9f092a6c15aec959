//! Single-pass translation of a token stream directly into chunk
//! bytecode with an operator-precedence (Pratt) parser; no expression
//! tree is materialized. The first error enters panic mode, which
//! suppresses cascading diagnostics; compilation still runs to
//! completion but yields failure.
use vstd::prelude::*;

use crate::chunk::{code_valid, le16_bytes, lemma_code_valid_append, lemma_code_valid_grow,
    newChunk, Chunk, MAX_CONSTANTS};
use crate::opcodes::{op_to_byte, OpCode};
use crate::rules::{next_prec_spec, ParseFn, ParseRule, prec_level, Precedence};
use crate::scanner::{is_digit_c, newScanner, scan_post, seek, tok_eq, ws_end, Scanner, Token,
    TokenType, rule_spec};
use crate::text::{str_chars, u64_to_string};
use crate::value::Value;

verus! {

/// Where a diagnostic points: the end of input, a concrete lexeme, or
/// nowhere in particular (for lexical errors, whose message already
/// names the offending text).
#[derive(Clone, PartialEq, Debug)]
pub enum ErrorContext {
    AT_END,
    AT_TOKEN(String),
    BARE,
}

/// A compile-time diagnostic: the source line it arose on, the message,
/// and where it points.
#[derive(Clone, PartialEq, Debug)]
pub struct CompileError {
    pub line: usize,
    pub message: String,
    pub context: ErrorContext,
}

/// The rendered text of an error context.
pub open spec fn context_text(c: ErrorContext) -> Seq<char> {
    match c {
        ErrorContext::AT_END => " at end"@,
        ErrorContext::AT_TOKEN(s) => " at '"@ + s@ + "'"@,
        ErrorContext::BARE => Seq::<char>::empty(),
    }
}

/// The rendered text of a compile error.
pub open spec fn error_text(e: CompileError) -> Seq<char> {
    "[line "@ + crate::text::dec_digits(e.line as int) + "] Error"@ + context_text(e.context)
        + ": "@ + e.message@
}

impl CompileError {
    /// This diagnostic as one line of text, ready to be printed.
    pub fn render(&self) -> (s: String)
        ensures
            s@ == error_text(*self),
    {
        let mut s = String::from_str("[line ");
        let num = u64_to_string(self.line as u64);
        s.append(num.as_str());
        s.append("] Error");
        match &self.context {
            ErrorContext::AT_END => {
                s.append(" at end");
            },
            ErrorContext::AT_TOKEN(name) => {
                s.append(" at '");
                s.append(name.as_str());
                s.append("'");
            },
            ErrorContext::BARE => {},
        }
        s.append(": ");
        s.append(self.message.as_str());
        proof {
            assert(s@ =~= error_text(*self));
        }
        s
    }
}

/// The parser state: the current and previous tokens, the error flags,
/// and the first diagnostic recorded.
pub struct Parser {
    pub current: Token,
    pub previous: Token,
    pub hadError: bool,
    pub panicMode: bool,
    pub first_error: Option<CompileError>,
}

/// The compiler: drives the scanner and emits instructions and
/// constants into its chunk in one pass.
pub struct Compiler {
    pub scanner: Scanner,
    pub parser: Parser,
    pub chunk: Chunk,
}

/// `post` extends `pre`: same length or longer, agreeing on the prefix.
pub open spec fn seq_extends<T>(post: Seq<T>, pre: Seq<T>) -> bool {
    pre.len() <= post.len() && forall|i: int| 0 <= i < pre.len() ==> post[i] == #[trigger] pre[i]
}

impl Compiler {
    /// The compiler invariant: scanner cursors and line counter are
    /// sound, the chunk's tables run in parallel, the emitted code is a
    /// well-formed instruction stream against the constant pool, the
    /// pool respects its 16-bit bound, and the error flags are
    /// consistent (a diagnostic is stored exactly when an error was
    /// recorded, and panic mode implies one was).
    pub open spec fn wf(self) -> bool {
        &&& self.wf_core()
        &&& (self.parser.current.toktype == TokenType::T_ERROR ==> self.parser.hadError)
    }

    /// The invariant minus the error-lookahead clause: what still holds
    /// in the instant between scanning an error token and recording it.
    pub open spec fn wf_core(self) -> bool {
        &&& self.scanner.pos_wf()
        &&& self.scanner.line_wf()
        &&& self.chunk.wf()
        &&& code_valid(self.chunk.code@, self.chunk.constants@.len() as int, 0)
        &&& self.chunk.constants@.len() <= MAX_CONSTANTS
        &&& (self.parser.hadError <==> self.parser.first_error is Some)
        &&& (self.parser.panicMode ==> self.parser.hadError)
        &&& (self.parser.current.toktype == TokenType::T_EOF ==> self.scanner.current
            == self.scanner.code@.len())
    }

    /// The parsing progress measure: twice the unread input, plus one
    /// while the lookahead token is not yet EOF. Every advance keeps it
    /// from growing, and shrinks it strictly unless it is already zero.
    pub open spec fn pmeasure(self) -> int {
        2 * (self.scanner.code@.len() - self.scanner.current) + if self.parser.current.toktype
            == TokenType::T_EOF {
            0int
        } else {
            1int
        }
    }

    /// What every parsing step preserves: the source is fixed, the
    /// cursor and measure only move forward, code and constants only
    /// grow, and errors, once recorded, stay.
    pub open spec fn step_ok(pre: Compiler, post: Compiler) -> bool {
        &&& post.scanner.code@ == pre.scanner.code@
        &&& pre.scanner.current <= post.scanner.current
        &&& post.pmeasure() <= pre.pmeasure()
        &&& seq_extends(post.chunk.code@, pre.chunk.code@)
        &&& seq_extends(post.chunk.constants@, pre.chunk.constants@)
        &&& (pre.parser.hadError ==> post.parser.hadError)
        &&& (pre.parser.first_error is Some ==> post.parser.first_error == pre.parser.first_error)
        &&& (pre.parser.panicMode ==> post.parser.panicMode)
    }

    /// Whether the lookahead token has the given kind.
    pub fn t_check(&self, t: TokenType) -> (r: bool)
        ensures
            r == (self.parser.current.toktype == t),
    {
        self.parser.current.toktype == t
    }

    /// Records a diagnostic at the lookahead token: the first error
    /// enters panic mode and is kept; later ones are suppressed.
    fn errorAt(&mut self, message: &str)
        requires
            old(self).wf_core(),
        ensures
            final(self).wf(),
            final(self).scanner == old(self).scanner,
            final(self).chunk == old(self).chunk,
            tok_eq(final(self).parser.current, old(self).parser.current),
            tok_eq(final(self).parser.previous, old(self).parser.previous),
            final(self).parser.current.toktype == old(self).parser.current.toktype,
            final(self).parser.hadError,
            final(self).parser.panicMode,
            old(self).parser.panicMode ==> final(self).parser == old(self).parser,
            old(self).parser.first_error is Some ==> final(self).parser.first_error == old(
                self,
            ).parser.first_error,
            !old(self).parser.hadError ==> (final(self).parser.first_error matches Some(e)
                && e.message@ == message@ && e.line == old(self).parser.current.line
                && (match e.context {
                    ErrorContext::AT_END => old(self).parser.current.toktype == TokenType::T_EOF,
                    ErrorContext::BARE => old(self).parser.current.toktype == TokenType::T_ERROR,
                    ErrorContext::AT_TOKEN(nm) => old(self).parser.current.toktype
                        != TokenType::T_EOF && old(self).parser.current.toktype
                        != TokenType::T_ERROR && nm@ == old(self).parser.current.name@,
                })),
            Self::step_ok(*old(self), *final(self)),
    {
        if self.parser.panicMode {
            return ;
        }
        self.parser.panicMode = true;
        let context = if self.parser.current.toktype == TokenType::T_EOF {
            ErrorContext::AT_END
        } else if self.parser.current.toktype == TokenType::T_ERROR {
            ErrorContext::BARE
        } else {
            ErrorContext::AT_TOKEN(self.parser.current.name.clone())
        };
        let err = CompileError {
            line: self.parser.current.line,
            message: message.to_owned(),
            context,
        };
        if !self.parser.hadError {
            self.parser.first_error = Some(err);
        }
        self.parser.hadError = true;
    }

    /// Records a diagnostic at the lookahead token.
    fn errorAtCurrent(&mut self, message: &str)
        requires
            old(self).wf_core(),
        ensures
            final(self).wf(),
            final(self).scanner == old(self).scanner,
            final(self).chunk == old(self).chunk,
            tok_eq(final(self).parser.current, old(self).parser.current),
            tok_eq(final(self).parser.previous, old(self).parser.previous),
            final(self).parser.hadError,
            final(self).parser.panicMode,
            old(self).parser.first_error is Some ==> final(self).parser.first_error == old(
                self,
            ).parser.first_error,
            !old(self).parser.hadError ==> (final(self).parser.first_error matches Some(e)
                && e.message@ == message@ && e.line == old(self).parser.current.line),
            Self::step_ok(*old(self), *final(self)),
    {
        self.errorAt(message);
    }

    /// Records a diagnostic for the construct just parsed.
    fn error(&mut self, message: &str)
        requires
            old(self).wf_core(),
        ensures
            final(self).wf(),
            final(self).scanner == old(self).scanner,
            final(self).chunk == old(self).chunk,
            tok_eq(final(self).parser.current, old(self).parser.current),
            tok_eq(final(self).parser.previous, old(self).parser.previous),
            final(self).parser.hadError,
            final(self).parser.panicMode,
            old(self).parser.first_error is Some ==> final(self).parser.first_error == old(
                self,
            ).parser.first_error,
            !old(self).parser.hadError ==> (final(self).parser.first_error matches Some(e)
                && e.message@ == message@ && e.line == old(self).parser.current.line),
            Self::step_ok(*old(self), *final(self)),
    {
        self.errorAt(message);
    }

    /// Pulls the next token from the scanner into the lookahead slot,
    /// shifting the old lookahead into `previous`. An error token is
    /// surfaced as a diagnostic at once.
    fn advance(&mut self)
        requires
            old(self).wf(),
        ensures
            final(self).wf(),
            final(self).chunk == old(self).chunk,
            tok_eq(final(self).parser.previous, old(self).parser.current),
            Self::step_ok(*old(self), *final(self)),
            old(self).pmeasure() > 0 ==> final(self).pmeasure() < old(self).pmeasure(),
            scan_post(old(self).scanner, final(self).scanner, final(self).parser.current),
            final(self).parser.current.toktype != TokenType::T_ERROR
                ==> (final(self).parser.hadError == old(self).parser.hadError
                && final(self).parser.first_error == old(self).parser.first_error),
            final(self).parser.current.toktype == TokenType::T_ERROR
                ==> final(self).parser.hadError,
    {
        self.parser.previous = self.parser.current.clone();
        let t = self.scanner.scanToken();
        let is_err = t.toktype == TokenType::T_ERROR;
        self.parser.current = t;
        proof {
            crate::scanner::lemma_ws_end_bounds(
                old(self).scanner.code@,
                old(self).scanner.current as int,
            );
            if old(self).scanner.current < old(self).scanner.code@.len() {
                let p = crate::scanner::ws_end(
                    old(self).scanner.code@,
                    old(self).scanner.current as int,
                );
                if p < old(self).scanner.code@.len() {
                    crate::scanner::lemma_lex_at_bounds(old(self).scanner.code@, p);
                }
            }
        }
        if is_err {
            let msg = self.parser.current.name.clone();
            self.errorAtCurrent(msg.as_str());
        }
    }

    /// Consumes the lookahead token when it has the expected kind, and
    /// reports the given message otherwise (consuming nothing).
    fn consume(&mut self, tokType: TokenType, message: &str)
        requires
            old(self).wf(),
        ensures
            final(self).wf(),
            final(self).chunk == old(self).chunk,
            Self::step_ok(*old(self), *final(self)),
            old(self).parser.current.toktype == tokType ==> (tok_eq(
                final(self).parser.previous,
                old(self).parser.current,
            ) && scan_post(old(self).scanner, final(self).scanner, final(self).parser.current)
                && (final(self).parser.current.toktype != TokenType::T_ERROR
                ==> final(self).parser.hadError == old(self).parser.hadError)
                && (final(self).parser.current.toktype == TokenType::T_ERROR
                ==> final(self).parser.hadError)),
            old(self).parser.current.toktype != tokType
                ==> (final(self).scanner == old(self).scanner
                && tok_eq(final(self).parser.current, old(self).parser.current)
                && final(self).parser.hadError
                && (!old(self).parser.hadError
                ==> (final(self).parser.first_error matches Some(e)
                && e.message@ == message@))),
    {
        if self.parser.current.toktype == tokType {
            self.advance();
            return ;
        }
        self.errorAtCurrent(message);
    }

    /// Consumes the lookahead token exactly when it has the given kind.
    fn t_match(&mut self, t: TokenType) -> (r: bool)
        requires
            old(self).wf(),
        ensures
            final(self).wf(),
            final(self).chunk == old(self).chunk,
            r == (old(self).parser.current.toktype == t),
            Self::step_ok(*old(self), *final(self)),
            r && t != TokenType::T_EOF ==> final(self).pmeasure() < old(self).pmeasure(),
            !r ==> *final(self) == *old(self),
            r ==> scan_post(old(self).scanner, final(self).scanner, final(self).parser.current),
            final(self).parser.current.toktype != TokenType::T_ERROR
                ==> (final(self).parser.hadError == old(self).parser.hadError
                && final(self).parser.first_error == old(self).parser.first_error),
    {
        if self.t_check(t) {
            self.advance();
            true
        } else {
            false
        }
    }
}

/// A decimal digit string read as a number, most significant digit
/// first; the empty string reads as zero.
pub open spec fn digits_val(s: Seq<char>) -> int
    decreases s.len(),
{
    if s.len() == 0 {
        0
    } else {
        10 * digits_val(s.drop_last()) + (s.last() as int - '0' as int)
    }
}

/// Every character of `s` is a decimal digit.
pub open spec fn all_digits(s: Seq<char>) -> bool {
    forall|i: int| 0 <= i < s.len() ==> is_digit_c(#[trigger] s[i])
}

/// A digit string's value is non-negative.
pub proof fn lemma_digits_val_nonneg(s: Seq<char>)
    requires
        all_digits(s),
    ensures
        digits_val(s) >= 0,
    decreases s.len(),
{
    if s.len() > 0 {
        assert(all_digits(s.drop_last()));
        lemma_digits_val_nonneg(s.drop_last());
    }
}

/// A digit string's value only grows as digits are appended.
pub proof fn lemma_digits_val_prefix(s: Seq<char>, k: int)
    requires
        all_digits(s),
        0 <= k <= s.len(),
    ensures
        digits_val(s.take(k)) <= digits_val(s),
    decreases s.len() - k,
{
    if k < s.len() {
        assert(all_digits(s.take(k + 1)));
        assert(s.take(k + 1).drop_last() =~= s.take(k));
        lemma_digits_val_nonneg(s.take(k));
        lemma_digits_val_prefix(s, k + 1);
    } else {
        assert(s.take(k) =~= s);
    }
}

fn ch_digit(c: char) -> (d: i64)
    requires
        is_digit_c(c),
    ensures
        d == c as int - '0' as int,
        0 <= d <= 9,
{
    ((c as u32) - ('0' as u32)) as i64
}

/// Reads a decimal digit string as an `i64`: `Some` exactly when the
/// string is non-empty, holds digits only, and its value fits.
pub fn parse_digits(v: &Vec<char>) -> (r: Option<i64>)
    ensures
        match r {
            Some(x) => v@.len() > 0 && all_digits(v@) && x as int == digits_val(v@) && x >= 0,
            None => v@.len() == 0 || !all_digits(v@) || digits_val(v@) > i64::MAX,
        },
{
    if v.len() == 0 {
        return None;
    }
    let mut acc: i64 = 0;
    let mut i: usize = 0;
    #[verifier::loop_isolation(false)]
    while i < v.len()
        invariant
            0 <= i <= v@.len(),
            all_digits(v@.take(i as int)),
            acc as int == digits_val(v@.take(i as int)),
            acc >= 0,
        decreases v@.len() - i,
    {
        let c = v[i];
        if !crate::scanner::ch_is_digit(c) {
            return None;
        }
        let d = ch_digit(c);
        proof {
            assert(all_digits(v@.take(i + 1)));
            assert(v@.take(i + 1).drop_last() =~= v@.take(i as int));
        }
        let next = match acc.checked_mul(10) {
            Some(m) => m.checked_add(d),
            None => None,
        };
        match next {
            Some(n) => {
                acc = n;
            },
            None => {
                proof {
                    if all_digits(v@) {
                        lemma_digits_val_prefix(v@, i + 1);
                    }
                }
                return None;
            },
        }
        i = i + 1;
    }
    proof {
        assert(v@.take(v@.len() as int) =~= v@);
    }
    Some(acc)
}

/// Stop predicate for the decimal point of a floating literal.
pub open spec fn stop_dot() -> spec_fn(char) -> bool {
    |c: char| c == '.'
}

/// Whether a lexeme has the shape of a supported floating literal
/// (digits, a point, digits, with both parts small enough to store).
pub open spec fn double_lexeme_ok(s: Seq<char>) -> bool {
    let dp = seek(s, 0, stop_dot());
    &&& 0 < dp < s.len()
    &&& dp + 1 < s.len()
    &&& all_digits(s.subrange(0, dp))
    &&& all_digits(s.subrange(dp + 1, s.len() as int))
    &&& digits_val(s.subrange(0, dp)) <= i64::MAX
    &&& digits_val(s.subrange(dp + 1, s.len() as int)) <= i64::MAX
    &&& s.len() <= u32::MAX
}

/// The value a well-shaped floating literal denotes.
pub open spec fn double_value_of(s: Seq<char>) -> Value {
    let dp = seek(s, 0, stop_dot());
    Value::DOUBLE(
        digits_val(s.subrange(0, dp)) as i64,
        digits_val(s.subrange(dp + 1, s.len() as int)) as u64,
        (s.len() - dp - 1) as u32,
    )
}

impl Compiler {
    /// Appends one operand-less instruction, recording the line of the
    /// token just parsed.
    fn emitByte(&mut self, op: OpCode)
        requires
            old(self).wf(),
            op != OpCode::OP_UNKNOWN,
            op != OpCode::OP_CONSTANT,
        ensures
            final(self).wf(),
            final(self).scanner == old(self).scanner,
            final(self).parser == old(self).parser,
            final(self).chunk.code@ == old(self).chunk.code@.push(op_to_byte(op)),
            final(self).chunk.constants == old(self).chunk.constants,
            Self::step_ok(*old(self), *final(self)),
    {
        let b = op.to_byte();
        proof {
            let post = old(self).chunk.code@.push(op_to_byte(op));
            assert(post =~= old(self).chunk.code@ + seq![op_to_byte(op)]);
            crate::opcodes::lemma_opcode_roundtrip(op);
            assert(code_valid(
                seq![op_to_byte(op)],
                old(self).chunk.constants@.len() as int,
                1,
            ));
            assert(code_valid(
                seq![op_to_byte(op)],
                old(self).chunk.constants@.len() as int,
                0,
            ));
            lemma_code_valid_append(
                old(self).chunk.code@,
                seq![op_to_byte(op)],
                old(self).chunk.constants@.len() as int,
                0,
            );
        }
        self.chunk.writeChunk(b, self.parser.previous.line);
    }

    /// Appends a constant-load instruction: the opcode byte, then the
    /// 16-bit little-endian pool index.
    fn emitBytes(&mut self, op: OpCode, operand: u16)
        requires
            old(self).wf(),
            op == OpCode::OP_CONSTANT,
            (operand as int) < old(self).chunk.constants@.len(),
        ensures
            final(self).wf(),
            final(self).scanner == old(self).scanner,
            final(self).parser == old(self).parser,
            final(self).chunk.code@ == old(self).chunk.code@ + seq![op_to_byte(op)] + le16_bytes(
                operand as int,
            ),
            final(self).chunk.constants == old(self).chunk.constants,
            Self::step_ok(*old(self), *final(self)),
    {
        let b = op.to_byte();
        let line = self.parser.previous.line;
        self.chunk.writeChunk(b, line);
        self.chunk.writeConstant(operand, line);
        proof {
            let n = old(self).chunk.constants@.len() as int;
            let instr = seq![op_to_byte(op)] + le16_bytes(operand as int);
            crate::chunk::lemma_le16_roundtrip(operand as int);
            assert(code_valid(instr, n, 3));
            assert(code_valid(instr, n, 0));
            lemma_code_valid_append(old(self).chunk.code@, instr, n, 0);
            assert(self.chunk.code@ =~= old(self).chunk.code@ + instr);
            assert(self.chunk.code@ =~= old(self).chunk.code@ + seq![op_to_byte(op)] + le16_bytes(
                operand as int,
            ));
        }
    }

    /// Appends the return instruction.
    fn emitReturn(&mut self)
        requires
            old(self).wf(),
        ensures
            final(self).wf(),
            final(self).scanner == old(self).scanner,
            final(self).parser == old(self).parser,
            final(self).chunk.code@ == old(self).chunk.code@.push(op_to_byte(OpCode::OP_RETURN)),
            final(self).chunk.constants == old(self).chunk.constants,
            Self::step_ok(*old(self), *final(self)),
    {
        self.emitByte(OpCode::OP_RETURN);
    }

    /// Closes the pass by emitting the final return instruction.
    fn endCompiler(&mut self)
        requires
            old(self).wf(),
        ensures
            final(self).wf(),
            final(self).scanner == old(self).scanner,
            final(self).parser == old(self).parser,
            final(self).chunk.code@ == old(self).chunk.code@.push(op_to_byte(OpCode::OP_RETURN)),
            final(self).chunk.constants == old(self).chunk.constants,
            Self::step_ok(*old(self), *final(self)),
    {
        self.emitReturn();
    }

    /// Adds a value to the constant pool and returns its 16-bit index;
    /// a full pool is a compile error and index 0 is returned in its
    /// place.
    fn makeConstant(&mut self, value: Value) -> (idx: u16)
        requires
            old(self).wf(),
        ensures
            final(self).wf(),
            final(self).scanner == old(self).scanner,
            final(self).chunk.code == old(self).chunk.code,
            final(self).chunk.lines == old(self).chunk.lines,
            tok_eq(final(self).parser.current, old(self).parser.current),
            tok_eq(final(self).parser.previous, old(self).parser.previous),
            final(self).parser.previous.line == old(self).parser.previous.line,
            Self::step_ok(*old(self), *final(self)),
            if old(self).chunk.constants@.len() < MAX_CONSTANTS {
                &&& final(self).chunk.constants@ == old(self).chunk.constants@.push(value)
                &&& idx as int == old(self).chunk.constants@.len()
                &&& final(self).parser == old(self).parser
            } else {
                &&& final(self).chunk.constants == old(self).chunk.constants
                &&& idx == 0
                &&& final(self).parser.hadError
                &&& (!old(self).parser.hadError ==> (final(self).parser.first_error matches Some(
                    e,
                ) && e.message@ == "Too many constants in one chunk."@))
            },
            (idx as int) < final(self).chunk.constants@.len(),
    {
        if self.chunk.constants.len() >= MAX_CONSTANTS {
            self.error("Too many constants in one chunk.");
            return 0;
        }
        let idx = self.chunk.addConstant(value);
        proof {
            lemma_code_valid_grow(
                self.chunk.code@,
                old(self).chunk.constants@.len() as int,
                self.chunk.constants@.len() as int,
                0,
            );
        }
        idx as u16
    }

    /// Appends `value` to the constant pool and emits a load of it.
    fn emitConstant(&mut self, value: Value)
        requires
            old(self).wf(),
        ensures
            final(self).wf(),
            final(self).scanner == old(self).scanner,
            tok_eq(final(self).parser.current, old(self).parser.current),
            tok_eq(final(self).parser.previous, old(self).parser.previous),
            Self::step_ok(*old(self), *final(self)),
            if old(self).chunk.constants@.len() < MAX_CONSTANTS {
                &&& final(self).chunk.constants@ == old(self).chunk.constants@.push(value)
                &&& final(self).chunk.code@ == old(self).chunk.code@ + seq![
                    op_to_byte(OpCode::OP_CONSTANT),
                ] + le16_bytes(old(self).chunk.constants@.len() as int)
                &&& final(self).parser == old(self).parser
            } else {
                &&& final(self).chunk.constants == old(self).chunk.constants
                &&& final(self).chunk.code@ == old(self).chunk.code@ + seq![
                    op_to_byte(OpCode::OP_CONSTANT),
                ] + le16_bytes(0)
                &&& final(self).parser.hadError
            },
    {
        let operand = self.makeConstant(value);
        self.emitBytes(OpCode::OP_CONSTANT, operand);
    }

    /// The dispatch rule of a token kind.
    fn GetRule(&self, t: TokenType) -> (r: ParseRule)
        ensures
            r == rule_spec(t),
    {
        t.get_rule()
    }

    /// Whether a value counts as false under the falsiness rule.
    pub fn isFalse(&mut self, value: Value) -> (r: bool)
        ensures
            *final(self) == *old(self),
            r == crate::value::is_falsy(value),
    {
        value.is_false()
    }

    /// Prefix handler for integer literals: reads the lexeme of the
    /// token just parsed as a decimal integer and emits a constant load
    /// of it. A malformed or oversized lexeme is a compile error.
    pub fn integer(&mut self, _canAssign: bool)
        requires
            old(self).wf(),
        ensures
            final(self).wf(),
            final(self).scanner == old(self).scanner,
            tok_eq(final(self).parser.current, old(self).parser.current),
            tok_eq(final(self).parser.previous, old(self).parser.previous),
            Self::step_ok(*old(self), *final(self)),
            ({
                let s = old(self).parser.previous.name@;
                if s.len() > 0 && all_digits(s) && digits_val(s) <= i64::MAX {
                    if old(self).chunk.constants@.len() < MAX_CONSTANTS {
                        &&& final(self).chunk.constants@ == old(self).chunk.constants@.push(
                            Value::INTEGER(digits_val(s) as i64),
                        )
                        &&& final(self).chunk.code@ == old(self).chunk.code@ + seq![
                            op_to_byte(OpCode::OP_CONSTANT),
                        ] + le16_bytes(old(self).chunk.constants@.len() as int)
                        &&& final(self).parser == old(self).parser
                        &&& final(self).scanner == old(self).scanner
                    } else {
                        &&& final(self).chunk.constants == old(self).chunk.constants
                        &&& final(self).parser.hadError
                    }
                } else {
                    &&& final(self).chunk == old(self).chunk
                    &&& final(self).parser.hadError
                }
            }),
    {
        let chars = str_chars(self.parser.previous.name.as_str());
        match parse_digits(&chars) {
            Some(v) => {
                self.emitConstant(Value::INTEGER(v));
            },
            None => {
                self.error("Invalid integer literal.");
            },
        }
    }

    /// Prefix handler for floating literals: reads the lexeme of the
    /// token just parsed as digits, a decimal point, and more digits,
    /// and emits a constant load of the decomposed value. A malformed
    /// or oversized lexeme is a compile error.
    pub fn double(&mut self, _canAssign: bool)
        requires
            old(self).wf(),
        ensures
            final(self).wf(),
            final(self).scanner == old(self).scanner,
            tok_eq(final(self).parser.current, old(self).parser.current),
            tok_eq(final(self).parser.previous, old(self).parser.previous),
            Self::step_ok(*old(self), *final(self)),
            ({
                let s = old(self).parser.previous.name@;
                if double_lexeme_ok(s) {
                    if old(self).chunk.constants@.len() < MAX_CONSTANTS {
                        &&& final(self).chunk.constants@ == old(self).chunk.constants@.push(
                            double_value_of(s),
                        )
                        &&& final(self).chunk.code@ == old(self).chunk.code@ + seq![
                            op_to_byte(OpCode::OP_CONSTANT),
                        ] + le16_bytes(old(self).chunk.constants@.len() as int)
                        &&& final(self).parser == old(self).parser
                        &&& final(self).scanner == old(self).scanner
                    } else {
                        &&& final(self).chunk.constants == old(self).chunk.constants
                        &&& final(self).parser.hadError
                    }
                } else {
                    &&& final(self).chunk == old(self).chunk
                    &&& final(self).parser.hadError
                }
            }),
    {
        let chars = str_chars(self.parser.previous.name.as_str());
        let ghost s = chars@;
        let mut dot: usize = 0;
        #[verifier::loop_isolation(false)]
        while dot < chars.len() && chars[dot] != '.'
            invariant
                0 <= dot <= s.len(),
                seek(s, 0, stop_dot()) == seek(s, dot as int, stop_dot()),
            decreases s.len() - dot,
        {
            dot = dot + 1;
        }
        proof {
            assert(dot as int == seek(s, 0, stop_dot()));
        }
        if dot == 0 || dot >= chars.len() || dot + 1 >= chars.len() {
            self.error("Invalid numeric literal.");
            return ;
        }
        let mut whole_v: Vec<char> = Vec::new();
        let mut i: usize = 0;
        #[verifier::loop_isolation(false)]
        while i < dot
            invariant
                0 <= i <= dot,
                whole_v@ == s.subrange(0, i as int),
            decreases dot - i,
        {
            whole_v.push(chars[i]);
            i = i + 1;
            proof {
                assert(whole_v@ =~= s.subrange(0, i as int));
            }
        }
        let mut frac_v: Vec<char> = Vec::new();
        let mut j: usize = dot + 1;
        #[verifier::loop_isolation(false)]
        while j < chars.len()
            invariant
                dot + 1 <= j <= s.len(),
                frac_v@ == s.subrange(dot + 1, j as int),
            decreases s.len() - j,
        {
            frac_v.push(chars[j]);
            j = j + 1;
            proof {
                assert(frac_v@ =~= s.subrange(dot + 1, j as int));
            }
        }
        proof {
            assert(whole_v@ =~= s.subrange(0, dot as int));
            assert(frac_v@ =~= s.subrange(dot + 1, s.len() as int));
        }
        if chars.len() > (u32::MAX as usize) {
            self.error("Invalid numeric literal.");
            return ;
        }
        let whole = parse_digits(&whole_v);
        let frac = parse_digits(&frac_v);
        match (whole, frac) {
            (Some(w), Some(f)) => {
                let count: u32 = (chars.len() - dot - 1) as u32;
                self.emitConstant(Value::DOUBLE(w, f as u64, count));
            },
            _ => {
                self.error("Invalid numeric literal.");
            },
        }
    }

    /// Prefix handler for the keyword literals `false`, `true`, and
    /// `nil`: each emits its dedicated zero-operand instruction.
    pub fn literal(&mut self, _canAssign: bool)
        requires
            old(self).wf(),
        ensures
            final(self).wf(),
            final(self).scanner == old(self).scanner,
            tok_eq(final(self).parser.current, old(self).parser.current),
            tok_eq(final(self).parser.previous, old(self).parser.previous),
            Self::step_ok(*old(self), *final(self)),
            ({
                let t = old(self).parser.previous.toktype;
                if t == TokenType::T_FALSE {
                    final(self).chunk.code@ == old(self).chunk.code@.push(
                        op_to_byte(OpCode::OP_FALSE),
                    ) && final(self).chunk.constants == old(self).chunk.constants
                        && final(self).parser == old(self).parser
                } else if t == TokenType::T_TRUE {
                    final(self).chunk.code@ == old(self).chunk.code@.push(
                        op_to_byte(OpCode::OP_TRUE),
                    ) && final(self).chunk.constants == old(self).chunk.constants
                        && final(self).parser == old(self).parser
                } else if t == TokenType::T_NIL {
                    final(self).chunk.code@ == old(self).chunk.code@.push(
                        op_to_byte(OpCode::OP_NIL),
                    ) && final(self).chunk.constants == old(self).chunk.constants
                        && final(self).parser == old(self).parser
                } else {
                    final(self).chunk == old(self).chunk && final(self).parser.hadError
                }
            }),
    {
        match self.parser.previous.toktype {
            TokenType::T_FALSE => self.emitByte(OpCode::OP_FALSE),
            TokenType::T_TRUE => self.emitByte(OpCode::OP_TRUE),
            TokenType::T_NIL => self.emitByte(OpCode::OP_NIL),
            _ => self.error("Unknown literal"),
        }
    }
}

/// The opcode bytes a binary operator token compiles to, emitted after
/// the right operand's code. The four relational rewrites share two
/// comparison opcodes: `!=` is equal-then-not, `>=` is less-then-not,
/// and `<=` is greater-then-not. Tokens that are no binary operator map
/// to the empty sequence.
pub open spec fn binary_suffix(t: TokenType) -> Seq<u8> {
    match t {
        TokenType::T_PLUS => seq![op_to_byte(OpCode::OP_IADD)],
        TokenType::T_MINUS => seq![op_to_byte(OpCode::OP_ISUB)],
        TokenType::T_STAR => seq![op_to_byte(OpCode::OP_IMUL)],
        TokenType::T_SLASH => seq![op_to_byte(OpCode::OP_IDIV)],
        TokenType::T_BANG_EQUAL => seq![op_to_byte(OpCode::OP_EQUAL), op_to_byte(OpCode::OP_NOT)],
        TokenType::T_EQUAL_EQUAL => seq![op_to_byte(OpCode::OP_EQUAL)],
        TokenType::T_GREATER => seq![op_to_byte(OpCode::OP_GREATER)],
        TokenType::T_GREATER_EQUAL => seq![op_to_byte(OpCode::OP_LESS), op_to_byte(OpCode::OP_NOT)],
        TokenType::T_LESS => seq![op_to_byte(OpCode::OP_LESS)],
        TokenType::T_LESS_EQUAL => seq![op_to_byte(OpCode::OP_GREATER), op_to_byte(OpCode::OP_NOT)],
        _ => Seq::<u8>::empty(),
    }
}

/// The opcode bytes a unary operator token compiles to, emitted after
/// its operand's code.
pub open spec fn unary_suffix(t: TokenType) -> Seq<u8> {
    match t {
        TokenType::T_MINUS => seq![op_to_byte(OpCode::OP_NEGATE)],
        TokenType::T_BANG => seq![op_to_byte(OpCode::OP_NOT)],
        _ => Seq::<u8>::empty(),
    }
}

/// The kind of the token the scanner would yield next from position
/// `e` (EOF at the end of input).
pub open spec fn tok_kind(code: Seq<char>, e: int) -> TokenType {
    let p = ws_end(code, e);
    if p >= code.len() {
        TokenType::T_EOF
    } else {
        crate::scanner::lex_at(code, p).0
    }
}

/// The text of the token the scanner would yield next from position
/// `e` (empty at the end of input).
pub open spec fn tok_text(code: Seq<char>, e: int) -> Seq<char> {
    let p = ws_end(code, e);
    if p >= code.len() {
        Seq::<char>::empty()
    } else {
        code.subrange(p, crate::scanner::lex_at(code, p).1)
    }
}

/// The scanner position after yielding the next token from position
/// `e`.
pub open spec fn tok_next(code: Seq<char>, e: int) -> int {
    let p = ws_end(code, e);
    if p >= code.len() {
        p
    } else {
        crate::scanner::lex_at(code, p).1
    }
}

/// The parsing progress measure of a lookahead state: twice the unread
/// input past scanner position `e`, plus one while the lookahead token
/// `tk` is not yet EOF. It coincides with the compiler's `pmeasure`.
pub open spec fn sp_measure(code: Seq<char>, tk: TokenType, e: int) -> int {
    2 * (code.len() - e) + if tk == TokenType::T_EOF {
        0int
    } else {
        1int
    }
}

/// Reading one token never grows the measure, and shrinks it strictly
/// unless it is already zero.
pub proof fn lemma_sp_advance(code: Seq<char>, tk: TokenType, e: int)
    requires
        0 <= e <= code.len(),
    ensures
        e <= tok_next(code, e) <= code.len(),
        sp_measure(code, tok_kind(code, e), tok_next(code, e)) <= sp_measure(code, tk, e),
        tk != TokenType::T_EOF ==> sp_measure(code, tok_kind(code, e), tok_next(code, e))
            < sp_measure(code, tk, e),
{
    crate::scanner::lemma_ws_end_bounds(code, e);
    let p = ws_end(code, e);
    if p < code.len() {
        crate::scanner::lemma_lex_at_bounds(code, p);
    }
}

/// A token a scan yields agrees with the `tok_kind`/`tok_text`/
/// `tok_next` description of the position it was read from.
pub proof fn lemma_scan_is_tok(pre: Scanner, post: Scanner, t: Token)
    requires
        scan_post(pre, post, t),
        pre.pos_wf(),
    ensures
        t.toktype == tok_kind(pre.code@, pre.current as int),
        t.toktype != TokenType::T_ERROR ==> t.name@ == tok_text(pre.code@, pre.current as int),
        post.current as int == tok_next(pre.code@, pre.current as int),
{
    crate::scanner::lemma_ws_end_bounds(pre.code@, pre.current as int);
    let p = ws_end(pre.code@, pre.current as int);
    if p < pre.code@.len() {
        crate::scanner::lemma_lex_at_bounds(pre.code@, p);
    }
}

/// A well-shaped integer literal lexeme: non-empty digits whose value
/// fits a 64-bit signed integer.
pub open spec fn int_lexeme_ok(s: Seq<char>) -> bool {
    s.len() > 0 && all_digits(s) && digits_val(s) <= i64::MAX
}

/// The spec-level mirror of the precedence-climbing parser, over the
/// lookahead state (the token kind `tk` and text `name` in hand, and
/// the scanner position `e` after it) and the number `n` of constants
/// pooled so far. `Some((n2, tk2, name2, e2))` means parsing at minimum
/// binding level `lv` succeeds, leaving `n2` pooled constants and the
/// given lookahead; `None` means a diagnostic is recorded.
#[verifier::opaque]
pub open spec fn sp_prec(
    code: Seq<char>,
    tk: TokenType,
    name: Seq<char>,
    e: int,
    lv: int,
    n: int,
) -> Option<(int, TokenType, Seq<char>, int)>
    decreases sp_measure(code, tk, e), 1int,
        via sp_prec_dec
{
    if !(0 <= e <= code.len() && 0 <= n) {
        None
    } else {
        let ntk = tok_kind(code, e);
        let nname = tok_text(code, e);
        let ne = tok_next(code, e);
        if ntk == TokenType::T_ERROR {
            None
        } else {
            let after_prefix: Option<(int, TokenType, Seq<char>, int)> = match rule_spec(
                tk,
            ).prefix {
                Option::None => None,
                Option::Some(ParseFn::P_INTEGER) => if int_lexeme_ok(name) && n < MAX_CONSTANTS
                    as int {
                    Some((n + 1, ntk, nname, ne))
                } else {
                    None
                },
                Option::Some(ParseFn::P_DOUBLE) => if double_lexeme_ok(name) && n < MAX_CONSTANTS
                    as int {
                    Some((n + 1, ntk, nname, ne))
                } else {
                    None
                },
                Option::Some(ParseFn::P_LITERAL) => Some((n, ntk, nname, ne)),
                Option::Some(ParseFn::P_UNARY) => sp_prec(
                    code,
                    ntk,
                    nname,
                    ne,
                    prec_level(Precedence::PREC_UNARY),
                    n,
                ),
                Option::Some(ParseFn::P_GROUPING) => sp_group(code, ntk, nname, ne, n),
                Option::Some(ParseFn::P_BINARY) => None,
            };
            match after_prefix {
                Option::Some((n2, tk2, nm2, e2)) => if 0 <= e2 <= code.len() && tk2
                    != TokenType::T_ERROR && sp_measure(code, tk2, e2) < sp_measure(code, tk, e) {
                    sp_infix(code, tk2, nm2, e2, lv, n2)
                } else {
                    None
                },
                Option::None => None,
            }
        }
    }
}

#[via_fn]
proof fn sp_prec_dec(code: Seq<char>, tk: TokenType, name: Seq<char>, e: int, lv: int, n: int) {
    if 0 <= e <= code.len() {
        lemma_sp_advance(code, tk, e);
    }
}

/// The spec-level mirror of a parenthesized group: one full expression,
/// then the matching close parenthesis.
#[verifier::opaque]
pub open spec fn sp_group(code: Seq<char>, tk: TokenType, name: Seq<char>, e: int, n: int) -> Option<
    (int, TokenType, Seq<char>, int),
>
    decreases sp_measure(code, tk, e), 2int,
{
    match sp_prec(code, tk, name, e, prec_level(Precedence::PREC_ASSIGNMENT), n) {
        Option::Some((n2, tk2, nm2, e2)) => if !(0 <= e2 <= code.len()) {
            None
        } else if tk2 == TokenType::T_RIGHT_PAREN {
            if tok_kind(code, e2) == TokenType::T_ERROR {
                None
            } else {
                Some((n2, tok_kind(code, e2), tok_text(code, e2), tok_next(code, e2)))
            }
        } else {
            None
        },
        Option::None => None,
    }
}

/// The spec-level mirror of the infix loop: while the lookahead token
/// binds at least at level `lv`, consume it, parse the right operand
/// one level tighter, and continue. An assignment target that is no
/// such thing (an `=` after an expression at assignment level) is a
/// diagnostic.
#[verifier::opaque]
pub open spec fn sp_infix(
    code: Seq<char>,
    tk: TokenType,
    name: Seq<char>,
    e: int,
    lv: int,
    n: int,
) -> Option<(int, TokenType, Seq<char>, int)>
    decreases sp_measure(code, tk, e), 0int,
        via sp_infix_dec
{
    if !(0 <= e <= code.len() && 1 <= lv) {
        None
    } else if prec_level(rule_spec(tk).prec) < lv {
        Some((n, tk, name, e))
    } else {
        let ntk = tok_kind(code, e);
        let nname = tok_text(code, e);
        let ne = tok_next(code, e);
        if ntk == TokenType::T_ERROR {
            None
        } else {
            let after: Option<(int, TokenType, Seq<char>, int)> = match rule_spec(tk).infix {
                Option::Some(ParseFn::P_BINARY) => sp_prec(
                    code,
                    ntk,
                    nname,
                    ne,
                    prec_level(next_prec_spec(rule_spec(tk).prec)),
                    n,
                ),
                _ => Some((n, ntk, nname, ne)),
            };
            match after {
                Option::Some((n2, tk2, nm2, e2)) => if 0 <= e2 <= code.len() && tk2
                    != TokenType::T_ERROR && sp_measure(code, tk2, e2) < sp_measure(code, tk, e) {
                    if lv <= 1 && tk2 == TokenType::T_EQUAL {
                        None
                    } else {
                        sp_infix(code, tk2, nm2, e2, lv, n2)
                    }
                } else {
                    None
                },
                Option::None => None,
            }
        }
    }
}

#[via_fn]
proof fn sp_infix_dec(code: Seq<char>, tk: TokenType, name: Seq<char>, e: int, lv: int, n: int) {
    if 0 <= e <= code.len() {
        lemma_sp_advance(code, tk, e);
    }
}

/// The spec-level mirror of statement dispatch: leading keywords are
/// recognized (the unimplemented ones are diagnostics), and everything
/// else is an expression statement with an optional closing semicolon.
pub open spec fn sp_statement(code: Seq<char>, tk: TokenType, name: Seq<char>, e: int, n: int) -> Option<
    (int, TokenType, Seq<char>, int),
> {
    if tk == TokenType::T_MODULE || tk == TokenType::T_IMPORT || tk == TokenType::T_LET || tk
        == TokenType::T_IF {
        None
    } else if tk == TokenType::T_ELSE || tk == TokenType::T_FN || tk == TokenType::T_RETURN || tk
        == TokenType::T_LOOP {
        if tok_kind(code, e) == TokenType::T_ERROR {
            None
        } else {
            Some((n, tok_kind(code, e), tok_text(code, e), tok_next(code, e)))
        }
    } else {
        sp_expr_statement(code, tk, name, e, n)
    }
}

/// The spec-level mirror of an expression statement: one expression at
/// assignment level, optionally closed by a semicolon.
pub open spec fn sp_expr_statement(
    code: Seq<char>,
    tk: TokenType,
    name: Seq<char>,
    e: int,
    n: int,
) -> Option<(int, TokenType, Seq<char>, int)> {
    match sp_prec(code, tk, name, e, prec_level(Precedence::PREC_ASSIGNMENT), n) {
        Option::Some((n2, tk2, nm2, e2)) => if tk2 == TokenType::T_SEMICOLON {
            if tok_kind(code, e2) == TokenType::T_ERROR {
                None
            } else {
                Some((n2, tok_kind(code, e2), tok_text(code, e2), tok_next(code, e2)))
            }
        } else {
            Some((n2, tk2, nm2, e2))
        },
        Option::None => None,
    }
}

/// The spec-level mirror of the whole pass: statements until EOF. The
/// result is the number of constants the chunk pools; `None` means some
/// diagnostic is recorded and compilation fails.
pub open spec fn sp_program(code: Seq<char>, tk: TokenType, name: Seq<char>, e: int, n: int) -> Option<
    int,
>
    decreases sp_measure(code, tk, e),
{
    if !(0 <= e <= code.len()) {
        None
    } else if tk == TokenType::T_EOF {
        Some(n)
    } else {
        match sp_statement(code, tk, name, e, n) {
            Option::Some((n2, tk2, nm2, e2)) => if 0 <= e2 <= code.len() && tk2
                != TokenType::T_ERROR && sp_measure(code, tk2, e2) < sp_measure(code, tk, e) {
                sp_program(code, tk2, nm2, e2, n2)
            } else {
                None
            },
            Option::None => None,
        }
    }
}

/// Which sources the compiler accepts, and with how many pooled
/// constants: the first token is read, and statements follow until EOF.
pub open spec fn spec_accepts(s: Seq<char>) -> Option<int> {
    if tok_kind(s, 0) == TokenType::T_ERROR {
        None
    } else {
        sp_program(s, tok_kind(s, 0), tok_text(s, 0), tok_next(s, 0), 0)
    }
}

/// The exec parser's lookahead matches the given spec lookahead (an
/// error token's text is its diagnostic message, so it is not compared).
pub open spec fn look_is(c: Compiler, tk: TokenType, name: Seq<char>, e: int) -> bool {
    &&& c.parser.current.toktype == tk
    &&& (tk != TokenType::T_ERROR ==> c.parser.current.name@ == name)
    &&& c.scanner.current as int == e
}

/// The state after a parsing step realizes a spec-mirror result:
/// success leaves no diagnostic, the stated pool size, and the stated
/// lookahead; failure leaves a recorded diagnostic.
pub open spec fn realizes(post: Compiler, r: Option<(int, TokenType, Seq<char>, int)>) -> bool {
    match r {
        Option::Some((n2, tk2, nm2, e2)) => !post.parser.hadError && post.chunk.constants@.len()
            == n2 && look_is(post, tk2, nm2, e2),
        Option::None => post.parser.hadError,
    }
}

/// The parser stands at a sole integer literal: the lookahead token is
/// an integer literal whose digits fit a 64-bit integer, and only
/// whitespace and comments remain after it.
pub open spec fn at_sole_int_literal(c: Compiler) -> bool {
    &&& c.parser.current.toktype == TokenType::T_INTEGER
    &&& c.parser.current.name@.len() > 0
    &&& all_digits(c.parser.current.name@)
    &&& digits_val(c.parser.current.name@) <= i64::MAX
    &&& ws_end(c.scanner.code@, c.scanner.current as int) == c.scanner.code@.len()
}

/// What parsing a sole integer literal leaves behind: the literal was
/// appended to the pool and a load of it emitted, the lookahead moved
/// to EOF with the input exhausted, and no error arose.
pub open spec fn consumed_sole_int_literal(pre: Compiler, post: Compiler) -> bool {
    &&& post.parser.current.toktype == TokenType::T_EOF
    &&& post.scanner.current as int == post.scanner.code@.len()
    &&& post.parser.hadError == pre.parser.hadError
    &&& post.parser.first_error == pre.parser.first_error
    &&& post.chunk.constants@ == pre.chunk.constants@.push(
        Value::INTEGER(digits_val(pre.parser.current.name@) as i64),
    )
    &&& post.chunk.code@ == pre.chunk.code@ + seq![op_to_byte(OpCode::OP_CONSTANT)] + le16_bytes(
        pre.chunk.constants@.len() as int,
    )
}

/// The source text consists of exactly one integer literal whose value
/// fits a 64-bit integer, surrounded only by whitespace and comments.
pub open spec fn int_literal_source(s: Seq<char>) -> bool {
    let p = ws_end(s, 0);
    &&& p < s.len()
    &&& crate::scanner::lex_at(s, p).0 == TokenType::T_INTEGER
    &&& ({
        let e = crate::scanner::lex_at(s, p).1;
        &&& all_digits(s.subrange(p, e))
        &&& s.subrange(p, e).len() > 0
        &&& digits_val(s.subrange(p, e)) <= i64::MAX
        &&& ws_end(s, e) == s.len()
    })
}

/// The value that a sole-integer-literal source denotes.
pub open spec fn int_literal_value(s: Seq<char>) -> int {
    digits_val(s.subrange(ws_end(s, 0), crate::scanner::lex_at(s, ws_end(s, 0)).1))
}

/// The comparison rewrite laws: the three derived comparisons compile
/// to a base comparison followed by logical not, byte for byte. `a >= b`
/// emits exactly what `<` followed by `!` emits, `a <= b` exactly what
/// `>` followed by `!` emits, and `a != b` exactly what `==` followed by
/// `!` emits.
pub proof fn lemma_comparison_rewrites()
    ensures
        binary_suffix(TokenType::T_GREATER_EQUAL) == binary_suffix(TokenType::T_LESS)
            + unary_suffix(TokenType::T_BANG),
        binary_suffix(TokenType::T_LESS_EQUAL) == binary_suffix(TokenType::T_GREATER)
            + unary_suffix(TokenType::T_BANG),
        binary_suffix(TokenType::T_BANG_EQUAL) == binary_suffix(TokenType::T_EQUAL_EQUAL)
            + unary_suffix(TokenType::T_BANG),
{
    assert(binary_suffix(TokenType::T_GREATER_EQUAL) =~= binary_suffix(TokenType::T_LESS)
        + unary_suffix(TokenType::T_BANG));
    assert(binary_suffix(TokenType::T_LESS_EQUAL) =~= binary_suffix(TokenType::T_GREATER)
        + unary_suffix(TokenType::T_BANG));
    assert(binary_suffix(TokenType::T_BANG_EQUAL) =~= binary_suffix(TokenType::T_EQUAL_EQUAL)
        + unary_suffix(TokenType::T_BANG));
}

/// Appending one byte leaves exactly that byte as the trailing suffix.
proof fn lemma_suffix1(c: Seq<u8>, a: u8)
    ensures
        c.push(a).skip(c.push(a).len() - 1) == seq![a],
{
    assert(c.push(a).skip(c.push(a).len() - 1) =~= seq![a]);
}

/// Appending two bytes leaves exactly those bytes as the trailing
/// suffix.
proof fn lemma_suffix2(c: Seq<u8>, a: u8, b: u8)
    ensures
        c.push(a).push(b).skip(c.push(a).push(b).len() - 2) == seq![a, b],
{
    assert(c.push(a).push(b).skip(c.push(a).push(b).len() - 2) =~= seq![a, b]);
}

impl Compiler {
    /// Infix handler for binary operators: parses the right operand one
    /// precedence level tighter (which yields left-associativity), then
    /// emits the operator's opcodes. A token that is no binary operator
    /// is a compile error.
    pub fn binary(&mut self, _canAssign: bool)
        requires
            old(self).wf(),
        ensures
            final(self).wf(),
            Self::step_ok(*old(self), *final(self)),
            old(self).parser.current.toktype != TokenType::T_EOF ==> final(self).pmeasure() < old(self).pmeasure(),
            ({
                let suffix = binary_suffix(old(self).parser.previous.toktype);
                suffix.len() > 0 ==> final(self).chunk.code@.len() >= old(self).chunk.code@.len()
                    + suffix.len() && final(self).chunk.code@.skip(
                    final(self).chunk.code@.len() - suffix.len(),
                ) == suffix
            }),
            binary_suffix(old(self).parser.previous.toktype).len() == 0
                ==> final(self).parser.hadError,
            (!old(self).parser.hadError && binary_suffix(old(self).parser.previous.toktype).len()
                > 0) ==> realizes(
                *final(self),
                sp_prec(
                    old(self).scanner.code@,
                    old(self).parser.current.toktype,
                    old(self).parser.current.name@,
                    old(self).scanner.current as int,
                    prec_level(next_prec_spec(rule_spec(old(self).parser.previous.toktype).prec)),
                    old(self).chunk.constants@.len() as int,
                ),
            ),
        decreases self.pmeasure(), 2int,
    {
        let operatorType = self.parser.previous.toktype;
        let rule = self.GetRule(operatorType);
        let rPrec = rule.prec.next();
        self.ParsePrecedence(rPrec);
        let ghost c1 = self.chunk.code@;
        match operatorType {
            TokenType::T_PLUS => {
                self.emitByte(OpCode::OP_IADD);
                proof {
                    lemma_suffix1(c1, op_to_byte(OpCode::OP_IADD));
                }
            },
            TokenType::T_MINUS => {
                self.emitByte(OpCode::OP_ISUB);
                proof {
                    lemma_suffix1(c1, op_to_byte(OpCode::OP_ISUB));
                }
            },
            TokenType::T_STAR => {
                self.emitByte(OpCode::OP_IMUL);
                proof {
                    lemma_suffix1(c1, op_to_byte(OpCode::OP_IMUL));
                }
            },
            TokenType::T_SLASH => {
                self.emitByte(OpCode::OP_IDIV);
                proof {
                    lemma_suffix1(c1, op_to_byte(OpCode::OP_IDIV));
                }
            },
            TokenType::T_BANG_EQUAL => {
                self.emitByte(OpCode::OP_EQUAL);
                self.emitByte(OpCode::OP_NOT);
                proof {
                    lemma_suffix2(c1, op_to_byte(OpCode::OP_EQUAL), op_to_byte(OpCode::OP_NOT));
                }
            },
            TokenType::T_EQUAL_EQUAL => {
                self.emitByte(OpCode::OP_EQUAL);
                proof {
                    lemma_suffix1(c1, op_to_byte(OpCode::OP_EQUAL));
                }
            },
            TokenType::T_GREATER => {
                self.emitByte(OpCode::OP_GREATER);
                proof {
                    lemma_suffix1(c1, op_to_byte(OpCode::OP_GREATER));
                }
            },
            TokenType::T_GREATER_EQUAL => {
                self.emitByte(OpCode::OP_LESS);
                self.emitByte(OpCode::OP_NOT);
                proof {
                    lemma_suffix2(c1, op_to_byte(OpCode::OP_LESS), op_to_byte(OpCode::OP_NOT));
                }
            },
            TokenType::T_LESS => {
                self.emitByte(OpCode::OP_LESS);
                proof {
                    lemma_suffix1(c1, op_to_byte(OpCode::OP_LESS));
                }
            },
            TokenType::T_LESS_EQUAL => {
                self.emitByte(OpCode::OP_GREATER);
                self.emitByte(OpCode::OP_NOT);
                proof {
                    lemma_suffix2(c1, op_to_byte(OpCode::OP_GREATER), op_to_byte(OpCode::OP_NOT));
                }
            },
            _ => {
                self.error("Invalid binary operator.");
            },
        }
    }

    /// Prefix handler for unary operators: parses the operand at unary
    /// precedence, then emits negate for `-` or logical not for `!`.
    pub fn unary(&mut self, _canAssign: bool)
        requires
            old(self).wf(),
        ensures
            final(self).wf(),
            Self::step_ok(*old(self), *final(self)),
            old(self).parser.current.toktype != TokenType::T_EOF ==> final(self).pmeasure() < old(self).pmeasure(),
            ({
                let suffix = unary_suffix(old(self).parser.previous.toktype);
                suffix.len() > 0 ==> final(self).chunk.code@.len() >= old(self).chunk.code@.len()
                    + suffix.len() && final(self).chunk.code@.skip(
                    final(self).chunk.code@.len() - suffix.len(),
                ) == suffix
            }),
            unary_suffix(old(self).parser.previous.toktype).len() == 0
                ==> final(self).parser.hadError,
            (!old(self).parser.hadError && unary_suffix(old(self).parser.previous.toktype).len()
                > 0) ==> realizes(
                *final(self),
                sp_prec(
                    old(self).scanner.code@,
                    old(self).parser.current.toktype,
                    old(self).parser.current.name@,
                    old(self).scanner.current as int,
                    prec_level(Precedence::PREC_UNARY),
                    old(self).chunk.constants@.len() as int,
                ),
            ),
        decreases self.pmeasure(), 2int,
    {
        let operatorType = self.parser.previous.toktype;
        self.ParsePrecedence(Precedence::PREC_UNARY);
        let ghost c1 = self.chunk.code@;
        match operatorType {
            TokenType::T_MINUS => {
                self.emitByte(OpCode::OP_NEGATE);
                proof {
                    lemma_suffix1(c1, op_to_byte(OpCode::OP_NEGATE));
                }
            },
            TokenType::T_BANG => {
                self.emitByte(OpCode::OP_NOT);
                proof {
                    lemma_suffix1(c1, op_to_byte(OpCode::OP_NOT));
                }
            },
            _ => {
                self.error("Unknown operator type");
            },
        }
    }

    /// Prefix handler for parenthesized groups: parses an expression and
    /// requires the matching close parenthesis.
    pub fn grouping(&mut self, _canAssign: bool)
        requires
            old(self).wf(),
        ensures
            final(self).wf(),
            Self::step_ok(*old(self), *final(self)),
            old(self).parser.current.toktype != TokenType::T_EOF ==> final(self).pmeasure() < old(self).pmeasure(),
            !final(self).parser.hadError ==> final(self).parser.previous.toktype
                == TokenType::T_RIGHT_PAREN,
            !old(self).parser.hadError ==> realizes(
                *final(self),
                sp_group(
                    old(self).scanner.code@,
                    old(self).parser.current.toktype,
                    old(self).parser.current.name@,
                    old(self).scanner.current as int,
                    old(self).chunk.constants@.len() as int,
                ),
            ),
        decreases self.pmeasure(), 2int,
    {
        let ghost gcode = self.scanner.code@;
        let ghost pre_tk = self.parser.current.toktype;
        let ghost pre_nm = self.parser.current.name@;
        let ghost pre_e = self.scanner.current as int;
        let ghost pre_n = self.chunk.constants@.len() as int;
        self.expression();
        let ghost post_e = *self;
        self.consume(TokenType::T_RIGHT_PAREN, "Expect ')' after expression");
        proof {
            reveal_with_fuel(sp_group, 1);
            reveal_with_fuel(sp_prec, 1);
            reveal_with_fuel(sp_infix, 1);
            if !old(self).parser.hadError {
                let spv = sp_prec(
                    gcode,
                    pre_tk,
                    pre_nm,
                    pre_e,
                    prec_level(Precedence::PREC_ASSIGNMENT),
                    pre_n,
                );
                if post_e.parser.hadError {
                    assert(spv is None);
                    assert(self.parser.hadError);
                } else {
                    if post_e.parser.current.toktype == TokenType::T_RIGHT_PAREN {
                        lemma_scan_is_tok(post_e.scanner, self.scanner, self.parser.current);
                        assert(spv is Some);
                        assert(post_e.scanner.code@ == gcode);
                        assert(spv matches Some((n2, tk2, nm2, e2)) && n2
                            == post_e.chunk.constants@.len() && tk2 == TokenType::T_RIGHT_PAREN
                            && e2 == post_e.scanner.current as int);
                        assert(self.parser.current.toktype == tok_kind(
                            gcode,
                            post_e.scanner.current as int,
                        ));
                        assert(self.scanner.current as int == tok_next(
                            gcode,
                            post_e.scanner.current as int,
                        ));
                        if self.parser.current.toktype == TokenType::T_ERROR {
                            assert(self.parser.hadError);
                            assert(sp_group(gcode, pre_tk, pre_nm, pre_e, pre_n) is None);
                        } else {
                            assert(realizes(
                                *self,
                                sp_group(gcode, pre_tk, pre_nm, pre_e, pre_n),
                            ));
                        }
                    } else {
                        assert(self.parser.hadError);
                        assert(sp_group(gcode, pre_tk, pre_nm, pre_e, pre_n) is None);
                    }
                }
            }
        }
    }

    /// Parses one expression at assignment precedence.
    fn expression(&mut self)
        requires
            old(self).wf(),
        ensures
            final(self).wf(),
            Self::step_ok(*old(self), *final(self)),
            old(self).parser.current.toktype != TokenType::T_EOF ==> final(self).pmeasure() < old(self).pmeasure(),
            (at_sole_int_literal(*old(self)) && old(self).chunk.constants@.len()
                < MAX_CONSTANTS) ==> consumed_sole_int_literal(*old(self), *final(self)),
            !old(self).parser.hadError ==> realizes(
                *final(self),
                sp_prec(
                    old(self).scanner.code@,
                    old(self).parser.current.toktype,
                    old(self).parser.current.name@,
                    old(self).scanner.current as int,
                    prec_level(Precedence::PREC_ASSIGNMENT),
                    old(self).chunk.constants@.len() as int,
                ),
            ),
        decreases self.pmeasure(), 1int,
    {
        self.ParsePrecedence(Precedence::PREC_ASSIGNMENT);
    }

    /// The precedence-climbing core. Consumes one token and applies its
    /// prefix handler (an expression must begin with one); then, while
    /// the lookahead token binds at least as tightly as `prec`, consumes
    /// it and applies its infix handler.
    #[verifier::rlimit(100)]
    fn ParsePrecedence(&mut self, prec: Precedence)
        requires
            old(self).wf(),
            prec_level(prec) >= 1,
        ensures
            final(self).wf(),
            Self::step_ok(*old(self), *final(self)),
            old(self).parser.current.toktype != TokenType::T_EOF ==> final(self).pmeasure() < old(self).pmeasure(),
            final(self).parser.hadError || prec_level(
                rule_spec(final(self).parser.current.toktype).prec,
            ) < prec_level(prec),
            rule_spec(old(self).parser.current.toktype).prefix is None ==> (final(self).chunk
                == old(self).chunk && final(self).parser.hadError),
            (rule_spec(old(self).parser.current.toktype).prefix is None && !old(
                self,
            ).parser.hadError) ==> (final(self).parser.first_error matches Some(e) && (e.message@
                == "Expect expression (no prefix)"@ || final(self).parser.current.toktype
                == TokenType::T_ERROR)),
            (at_sole_int_literal(*old(self)) && old(self).chunk.constants@.len()
                < MAX_CONSTANTS) ==> consumed_sole_int_literal(*old(self), *final(self)),
            !old(self).parser.hadError ==> realizes(
                *final(self),
                sp_prec(
                    old(self).scanner.code@,
                    old(self).parser.current.toktype,
                    old(self).parser.current.name@,
                    old(self).scanner.current as int,
                    prec_level(prec),
                    old(self).chunk.constants@.len() as int,
                ),
            ),
        decreases self.pmeasure(), 0int,
    {
        let ghost code = self.scanner.code@;
        let ghost tk0 = self.parser.current.toktype;
        let ghost nm0 = self.parser.current.name@;
        let ghost e0 = self.scanner.current as int;
        let ghost n0 = self.chunk.constants@.len() as int;
        let ghost spec = sp_prec(code, tk0, nm0, e0, prec_level(prec), n0);
        self.advance();
        proof {
            lemma_scan_is_tok(old(self).scanner, self.scanner, self.parser.current);
        }
        let ghost mid0 = *self;
        let prevType = self.parser.previous.toktype;
        let rule = self.GetRule(prevType);
        if rule.prefix.is_none() {
            self.error("Expect expression (no prefix)");
            proof {
                reveal_with_fuel(sp_prec, 1);
                assert(spec is None);
            }
            return ;
        }
        proof {
            // A token with a prefix rule is never EOF, so the advance
            // above made strict progress.
            assert(rule_spec(TokenType::T_EOF).prefix is None);
            assert(self.pmeasure() < old(self).pmeasure());
        }
        let canAssign = prec.level() <= 1;
        match rule.prefix {
            Some(ParseFn::P_GROUPING) => self.grouping(canAssign),
            Some(ParseFn::P_UNARY) => self.unary(canAssign),
            Some(ParseFn::P_BINARY) => {
                proof {
                    // No token kind is assigned a binary prefix handler.
                    assert(rule_spec(prevType).prefix != Some(ParseFn::P_BINARY));
                    assert(false);
                }
                self.binary(canAssign)
            },
            Some(ParseFn::P_INTEGER) => self.integer(canAssign),
            Some(ParseFn::P_DOUBLE) => self.double(canAssign),
            Some(ParseFn::P_LITERAL) => self.literal(canAssign),
            None => {},
        }
        proof {
            reveal_with_fuel(sp_prec, 1);
            reveal_with_fuel(sp_infix, 1);
            reveal_with_fuel(sp_group, 1);
            lemma_sp_advance(code, tk0, e0);
            if !old(self).parser.hadError {
                let ntk = tok_kind(code, e0);
                let nname = tok_text(code, e0);
                let ne = tok_next(code, e0);
                assert(mid0.parser.current.toktype == ntk);
                assert(mid0.scanner.current as int == ne);
                assert(ntk != TokenType::T_ERROR ==> mid0.parser.current.name@ == nname);
                assert(mid0.parser.previous.toktype == tk0);
                assert(mid0.parser.previous.name@ == nm0);
                if ntk == TokenType::T_ERROR {
                    // The scan error was recorded and the spec rejects here.
                    assert(mid0.parser.hadError);
                    assert(self.parser.hadError);
                    assert(spec is None);
                } else if !self.parser.hadError {
                    // The prefix handler succeeded; match it to the spec's
                    // after-prefix state, arm by arm.
                    match rule_spec(tk0).prefix {
                        Some(ParseFn::P_INTEGER) => {
                            assert(int_lexeme_ok(nm0) && n0 < MAX_CONSTANTS as int);
                            assert(self.chunk.constants@.len() == n0 + 1);
                            assert(look_is(*self, ntk, nname, ne));
                            assert(sp_measure(code, ntk, ne) < sp_measure(code, tk0, e0));
                            assert(spec == sp_infix(
                                code,
                                ntk,
                                nname,
                                ne,
                                prec_level(prec),
                                n0 + 1,
                            ));
                        },
                        Some(ParseFn::P_DOUBLE) => {
                            assert(double_lexeme_ok(nm0) && n0 < MAX_CONSTANTS as int);
                            assert(self.chunk.constants@.len() == n0 + 1);
                            assert(look_is(*self, ntk, nname, ne));
                        },
                        Some(ParseFn::P_LITERAL) => {
                            assert(self.chunk.constants@.len() == n0);
                            assert(look_is(*self, ntk, nname, ne));
                        },
                        Some(ParseFn::P_UNARY) => {
                            assert(realizes(
                                *self,
                                sp_prec(
                                    code,
                                    ntk,
                                    nname,
                                    ne,
                                    prec_level(Precedence::PREC_UNARY),
                                    n0,
                                ),
                            ));
                        },
                        Some(ParseFn::P_GROUPING) => {
                            assert(realizes(*self, sp_group(code, ntk, nname, ne, n0)));
                        },
                        _ => {
                            assert(false);
                        },
                    }
                    // The measure facts discharge the spec's progress bound.
                    assert(sp_measure(code, tk0, e0) == old(self).pmeasure());
                    assert(sp_measure(
                        code,
                        self.parser.current.toktype,
                        self.scanner.current as int,
                    ) == self.pmeasure());
                    assert(self.pmeasure() < old(self).pmeasure());
                    assert(spec == sp_infix(
                        code,
                        self.parser.current.toktype,
                        self.parser.current.name@,
                        self.scanner.current as int,
                        prec_level(prec),
                        self.chunk.constants@.len() as int,
                    ));
                } else {
                    // The prefix handler recorded an error; the spec rejects.
                    match rule_spec(tk0).prefix {
                        Some(ParseFn::P_INTEGER) => {
                            assert(!(int_lexeme_ok(nm0) && n0 < MAX_CONSTANTS as int));
                        },
                        Some(ParseFn::P_DOUBLE) => {
                            assert(!(double_lexeme_ok(nm0) && n0 < MAX_CONSTANTS as int));
                        },
                        Some(ParseFn::P_LITERAL) => {
                            assert(false);
                        },
                        Some(ParseFn::P_UNARY) => {
                            assert(sp_prec(
                                code,
                                ntk,
                                nname,
                                ne,
                                prec_level(Precedence::PREC_UNARY),
                                n0,
                            ) is None);
                        },
                        Some(ParseFn::P_GROUPING) => {
                            assert(sp_group(code, ntk, nname, ne, n0) is None);
                        },
                        _ => {
                            assert(false);
                        },
                    }
                    assert(spec is None);
                }
            }
        }
        let lv = prec.level();
        #[verifier::loop_isolation(false)]
        while lv <= self.GetRule(self.parser.current.toktype).prec.level()
            invariant
                self.wf(),
                Self::step_ok(*old(self), *self),
                self.pmeasure() < old(self).pmeasure(),
                (at_sole_int_literal(*old(self)) && old(self).chunk.constants@.len()
                    < MAX_CONSTANTS) ==> consumed_sole_int_literal(*old(self), *self),
                (!old(self).parser.hadError && spec is Some) ==> (!self.parser.hadError
                    && sp_infix(
                    code,
                    self.parser.current.toktype,
                    self.parser.current.name@,
                    self.scanner.current as int,
                    prec_level(prec),
                    self.chunk.constants@.len() as int,
                ) == spec),
                (!old(self).parser.hadError && spec is None) ==> (self.parser.hadError
                    || sp_infix(
                    code,
                    self.parser.current.toktype,
                    self.parser.current.name@,
                    self.scanner.current as int,
                    prec_level(prec),
                    self.chunk.constants@.len() as int,
                ) is None),
            decreases self.pmeasure(),
        {
            proof {
                // The lookahead token binds at level one or higher, so it
                // has an infix rule and is not EOF.
                assert(self.parser.current.toktype != TokenType::T_EOF);
            }
            let ghost loop_pre = *self;
            self.advance();
            proof {
                lemma_scan_is_tok(loop_pre.scanner, self.scanner, self.parser.current);
            }
            let ghost mid = *self;
            let infixType = self.parser.previous.toktype;
            let irule = self.GetRule(infixType);
            match irule.infix {
                Some(ParseFn::P_GROUPING) => {
                    proof {
                        assert(rule_spec(infixType).infix != Some(ParseFn::P_GROUPING));
                        assert(false);
                    }
                    self.grouping(canAssign)
                },
                Some(ParseFn::P_UNARY) => {
                    proof {
                        assert(rule_spec(infixType).infix != Some(ParseFn::P_UNARY));
                        assert(false);
                    }
                    self.unary(canAssign)
                },
                Some(ParseFn::P_BINARY) => self.binary(canAssign),
                Some(ParseFn::P_INTEGER) => {
                    proof {
                        assert(rule_spec(infixType).infix != Some(ParseFn::P_INTEGER));
                        assert(false);
                    }
                    self.integer(canAssign)
                },
                Some(ParseFn::P_DOUBLE) => {
                    proof {
                        assert(rule_spec(infixType).infix != Some(ParseFn::P_DOUBLE));
                        assert(false);
                    }
                    self.double(canAssign)
                },
                Some(ParseFn::P_LITERAL) => {
                    proof {
                        assert(rule_spec(infixType).infix != Some(ParseFn::P_LITERAL));
                        assert(false);
                    }
                    self.literal(canAssign)
                },
                None => {},
            }
            let ghost post_h = *self;
            if canAssign && self.t_match(TokenType::T_EQUAL) {
                self.error("Invalid assignment target.");
            }
            proof {
                reveal_with_fuel(sp_infix, 1);
                reveal_with_fuel(sp_prec, 1);
                lemma_sp_advance(
                    code,
                    loop_pre.parser.current.toktype,
                    loop_pre.scanner.current as int,
                );
                if !old(self).parser.hadError && !self.parser.hadError {
                    let tkL = loop_pre.parser.current.toktype;
                    let nmL = loop_pre.parser.current.name@;
                    let eL = loop_pre.scanner.current as int;
                    let nL = loop_pre.chunk.constants@.len() as int;
                    let ntk = tok_kind(code, eL);
                    let nname = tok_text(code, eL);
                    let ne = tok_next(code, eL);
                    assert(mid.parser.current.toktype == ntk);
                    assert(mid.scanner.current as int == ne);
                    // The freshly scanned operand-side lookahead cannot be an
                    // error token, or an error would have been recorded.
                    assert(ntk != TokenType::T_ERROR);
                    assert(mid.parser.current.name@ == nname);
                    assert(mid.parser.previous.toktype == tkL);
                    // The iteration's operator binds at the requested level.
                    assert(prec_level(rule_spec(tkL).prec) >= prec_level(prec));
                    // The state never moved after the handler: the only later
                    // step, a consumed stray `=`, records an error.
                    assert(*self == post_h);
                    // The handler's result realizes the spec parse of the
                    // right operand.
                    match rule_spec(tkL).infix {
                        Some(ParseFn::P_BINARY) => {
                            assert(binary_suffix(tkL).len() > 0);
                            assert(realizes(
                                post_h,
                                sp_prec(
                                    code,
                                    ntk,
                                    nname,
                                    ne,
                                    prec_level(next_prec_spec(rule_spec(tkL).prec)),
                                    nL,
                                ),
                            ));
                        },
                        _ => {
                            assert(post_h == mid);
                        },
                    }
                    // The measure facts discharge the spec's progress bound.
                    assert(sp_measure(code, tkL, eL) == loop_pre.pmeasure());
                    assert(sp_measure(
                        code,
                        post_h.parser.current.toktype,
                        post_h.scanner.current as int,
                    ) == post_h.pmeasure());
                    assert(post_h.pmeasure() < loop_pre.pmeasure());
                    // No stray assignment target followed.
                    assert(!(prec_level(prec) <= 1 && post_h.parser.current.toktype
                        == TokenType::T_EQUAL));
                    // One step of the spec loop lands exactly on the new state.
                    assert(sp_infix(code, tkL, nmL, eL, prec_level(prec), nL) == sp_infix(
                        code,
                        self.parser.current.toktype,
                        self.parser.current.name@,
                        self.scanner.current as int,
                        prec_level(prec),
                        self.chunk.constants@.len() as int,
                    ));
                }
            }
        }
        proof {
            reveal_with_fuel(sp_infix, 1);
            if !old(self).parser.hadError {
                if spec is Some {
                    assert(realizes(*self, spec));
                } else {
                    assert(realizes(*self, spec));
                }
            }
        }
    }

    /// Placeholder for module declarations, which are out of scope: any
    /// use is reported as a compile error.
    pub fn declare_module(&mut self)
        requires
            old(self).wf(),
        ensures
            final(self).wf(),
            Self::step_ok(*old(self), *final(self)),
            final(self).chunk == old(self).chunk,
            final(self).parser.hadError,
    {
        self.error("'module' declarations are not implemented.");
    }

    /// Placeholder for imports, which are out of scope: any use is
    /// reported as a compile error.
    pub fn import_module(&mut self)
        requires
            old(self).wf(),
        ensures
            final(self).wf(),
            Self::step_ok(*old(self), *final(self)),
            final(self).chunk == old(self).chunk,
            final(self).parser.hadError,
    {
        self.error("'import' is not implemented.");
    }

    /// Placeholder for conditionals, which are out of scope: any use is
    /// reported as a compile error.
    pub fn if_statement(&mut self)
        requires
            old(self).wf(),
        ensures
            final(self).wf(),
            Self::step_ok(*old(self), *final(self)),
            final(self).chunk == old(self).chunk,
            final(self).parser.hadError,
    {
        self.error("'if' statements are not implemented.");
    }

    /// Placeholder for let bindings, which are out of scope: any use is
    /// reported as a compile error.
    pub fn declare_variable(&mut self)
        requires
            old(self).wf(),
        ensures
            final(self).wf(),
            Self::step_ok(*old(self), *final(self)),
            final(self).chunk == old(self).chunk,
            final(self).parser.hadError,
    {
        self.error("'let' declarations are not implemented.");
    }

    /// An expression statement: a bare expression, optionally closed by
    /// a semicolon.
    pub fn expression_statement(&mut self)
        requires
            old(self).wf(),
        ensures
            final(self).wf(),
            Self::step_ok(*old(self), *final(self)),
            old(self).parser.current.toktype != TokenType::T_EOF ==> final(self).pmeasure() < old(self).pmeasure(),
            (at_sole_int_literal(*old(self)) && old(self).chunk.constants@.len()
                < MAX_CONSTANTS) ==> consumed_sole_int_literal(*old(self), *final(self)),
            !old(self).parser.hadError ==> realizes(
                *final(self),
                sp_expr_statement(
                    old(self).scanner.code@,
                    old(self).parser.current.toktype,
                    old(self).parser.current.name@,
                    old(self).scanner.current as int,
                    old(self).chunk.constants@.len() as int,
                ),
            ),
    {
        let ghost gcode = self.scanner.code@;
        let ghost pre_tk = self.parser.current.toktype;
        let ghost pre_nm = self.parser.current.name@;
        let ghost pre_e = self.scanner.current as int;
        let ghost pre_n = self.chunk.constants@.len() as int;
        self.expression();
        let ghost post_e = *self;
        let _ = self.t_match(TokenType::T_SEMICOLON);
        proof {
            if !old(self).parser.hadError {
                let spv = sp_prec(
                    gcode,
                    pre_tk,
                    pre_nm,
                    pre_e,
                    prec_level(Precedence::PREC_ASSIGNMENT),
                    pre_n,
                );
                if post_e.parser.hadError {
                    assert(spv is None);
                    assert(self.parser.hadError);
                } else {
                    if post_e.parser.current.toktype == TokenType::T_SEMICOLON {
                        lemma_scan_is_tok(post_e.scanner, self.scanner, self.parser.current);
                        assert(post_e.scanner.code@ == gcode);
                        if self.parser.current.toktype == TokenType::T_ERROR {
                            assert(self.parser.hadError);
                        } else {
                            assert(realizes(
                                *self,
                                sp_expr_statement(gcode, pre_tk, pre_nm, pre_e, pre_n),
                            ));
                        }
                    } else {
                        assert(*self == post_e);
                    }
                }
            }
        }
    }

    /// Statement dispatch: leading keywords are recognized by token
    /// match, but only the expression-statement path has a realized
    /// implementation; the others are out-of-scope placeholders.
    pub fn statement(&mut self)
        requires
            old(self).wf(),
        ensures
            final(self).wf(),
            Self::step_ok(*old(self), *final(self)),
            old(self).parser.current.toktype != TokenType::T_EOF ==> final(self).pmeasure() < old(self).pmeasure(),
            (at_sole_int_literal(*old(self)) && old(self).chunk.constants@.len()
                < MAX_CONSTANTS) ==> consumed_sole_int_literal(*old(self), *final(self)),
            !old(self).parser.hadError ==> realizes(
                *final(self),
                sp_statement(
                    old(self).scanner.code@,
                    old(self).parser.current.toktype,
                    old(self).parser.current.name@,
                    old(self).scanner.current as int,
                    old(self).chunk.constants@.len() as int,
                ),
            ),
    {
        if self.t_match(TokenType::T_MODULE) {
            self.declare_module()
        } else if self.t_match(TokenType::T_IMPORT) {
            self.import_module()
        } else if self.t_match(TokenType::T_LET) {
            self.declare_variable()
        } else if self.t_match(TokenType::T_IF) {
            self.if_statement()
        } else if self.t_match(TokenType::T_ELSE) {
            proof {
                lemma_scan_is_tok(old(self).scanner, self.scanner, self.parser.current);
            }
        } else if self.t_match(TokenType::T_FN) {
            proof {
                lemma_scan_is_tok(old(self).scanner, self.scanner, self.parser.current);
            }
        } else if self.t_match(TokenType::T_RETURN) {
            proof {
                lemma_scan_is_tok(old(self).scanner, self.scanner, self.parser.current);
            }
        } else if self.t_match(TokenType::T_LOOP) {
            proof {
                lemma_scan_is_tok(old(self).scanner, self.scanner, self.parser.current);
            }
        } else {
            self.expression_statement()
        }
    }

    /// Compiles one statement.
    pub fn evaluate(&mut self)
        requires
            old(self).wf(),
        ensures
            final(self).wf(),
            Self::step_ok(*old(self), *final(self)),
            old(self).parser.current.toktype != TokenType::T_EOF ==> final(self).pmeasure() < old(self).pmeasure(),
            (at_sole_int_literal(*old(self)) && old(self).chunk.constants@.len()
                < MAX_CONSTANTS) ==> consumed_sole_int_literal(*old(self), *final(self)),
            !old(self).parser.hadError ==> realizes(
                *final(self),
                sp_statement(
                    old(self).scanner.code@,
                    old(self).parser.current.toktype,
                    old(self).parser.current.name@,
                    old(self).scanner.current as int,
                    old(self).chunk.constants@.len() as int,
                ),
            ),
    {
        self.statement();
    }
}

/// Compiles source text into a bytecode chunk in a single pass. On
/// success the chunk's line table runs in parallel with its code, the
/// code is a well-formed instruction stream over the constant pool, and
/// it ends with the return instruction. Source that holds no token at
/// all (only whitespace and comments) is owed success: it compiles to a
/// bare return and an empty pool. Failure reports the first diagnostic
/// recorded during the pass.
pub fn compile(source: String) -> (r: Result<Chunk, CompileError>)
    requires
        source@.len() < usize::MAX,
    ensures
        r matches Ok(c) ==> c.wf() && c.constants@.len() <= MAX_CONSTANTS && code_valid(
            c.code@,
            c.constants@.len() as int,
            0,
        ) && c.code@.len() >= 1 && c.code@.last() == op_to_byte(OpCode::OP_RETURN),
        ws_end(source@, 0) == source@.len() ==> (r matches Ok(c) && c.code@ == seq![
            op_to_byte(OpCode::OP_RETURN),
        ] && c.constants@.len() == 0),
        int_literal_source(source@) ==> (r matches Ok(c) && c.constants@ == seq![
            Value::INTEGER(int_literal_value(source@) as i64),
        ] && c.code@ == seq![
            op_to_byte(OpCode::OP_CONSTANT),
            0u8,
            0u8,
            op_to_byte(OpCode::OP_RETURN),
        ]),
        (ws_end(source@, 0) < source@.len() && crate::scanner::lex_at(
            source@,
            ws_end(source@, 0),
        ).0 == TokenType::T_ERROR) ==> r is Err,
        spec_accepts(source@) matches Some(n) ==> (r matches Ok(c) && c.constants@.len() == n),
        spec_accepts(source@) is None ==> r is Err,
{
    let scanner = newScanner(source);
    let start_tok = Token {
        name: String::from_str("Start"),
        toktype: TokenType::T_START,
        line: 0,
    };
    let start_tok2 = start_tok.clone();
    let mut compiler = Compiler {
        scanner,
        parser: Parser {
            current: start_tok,
            previous: start_tok2,
            hadError: false,
            panicMode: false,
            first_error: None,
        },
        chunk: newChunk(),
    };
    let ghost src = compiler.scanner.code@;
    let ghost blank = ws_end(src, 0) == src.len();
    let ghost lexfail = ws_end(src, 0) < src.len() && crate::scanner::lex_at(
        src,
        ws_end(src, 0),
    ).0 == TokenType::T_ERROR;
    let ghost acc = spec_accepts(src);
    let ghost sc0 = compiler.scanner;
    compiler.advance();
    proof {
        crate::scanner::lemma_ws_end_bounds(src, 0);
        lemma_scan_is_tok(sc0, compiler.scanner, compiler.parser.current);
    }
    loop
        invariant_except_break
            compiler.wf(),
            compiler.scanner.code@ == src,
            blank ==> (compiler.chunk.code@.len() == 0 && compiler.chunk.constants@.len() == 0
                && !compiler.parser.hadError && compiler.parser.current.toktype
                == TokenType::T_EOF && compiler.scanner.current as int == src.len()),
            lexfail ==> compiler.parser.hadError,
            acc is Some ==> (!compiler.parser.hadError && sp_program(
                src,
                compiler.parser.current.toktype,
                compiler.parser.current.name@,
                compiler.scanner.current as int,
                compiler.chunk.constants@.len() as int,
            ) == acc),
            acc is None ==> (compiler.parser.hadError || sp_program(
                src,
                compiler.parser.current.toktype,
                compiler.parser.current.name@,
                compiler.scanner.current as int,
                compiler.chunk.constants@.len() as int,
            ) is None),
            int_literal_source(src) ==> ((at_sole_int_literal(compiler)
                && compiler.chunk.code@.len() == 0 && compiler.chunk.constants@.len() == 0
                && !compiler.parser.hadError && compiler.parser.current.name@ == src.subrange(
                ws_end(src, 0),
                crate::scanner::lex_at(src, ws_end(src, 0)).1,
            )) || (compiler.parser.current.toktype == TokenType::T_EOF
                && compiler.scanner.current as int == src.len() && !compiler.parser.hadError
                && compiler.chunk.constants@ == seq![
                Value::INTEGER(int_literal_value(src) as i64),
            ] && compiler.chunk.code@ == seq![
                op_to_byte(OpCode::OP_CONSTANT),
                0u8,
                0u8,
            ])),
        ensures
            compiler.wf(),
            compiler.chunk.code@.len() >= 1,
            compiler.chunk.code@.last() == op_to_byte(OpCode::OP_RETURN),
            blank ==> (compiler.chunk.code@ == seq![op_to_byte(OpCode::OP_RETURN)]
                && compiler.chunk.constants@.len() == 0 && !compiler.parser.hadError),
            lexfail ==> compiler.parser.hadError,
            acc matches Some(n) ==> (!compiler.parser.hadError
                && compiler.chunk.constants@.len() == n),
            acc is None ==> compiler.parser.hadError,
            int_literal_source(src) ==> (!compiler.parser.hadError
                && compiler.chunk.constants@ == seq![
                Value::INTEGER(int_literal_value(src) as i64),
            ] && compiler.chunk.code@ == seq![
                op_to_byte(OpCode::OP_CONSTANT),
                0u8,
                0u8,
                op_to_byte(OpCode::OP_RETURN),
            ]),
        decreases compiler.pmeasure(),
    {
        if compiler.t_match(TokenType::T_EOF) {
            let ghost before = compiler.chunk.code@;
            compiler.endCompiler();
            proof {
                if blank {
                    assert(compiler.chunk.code@ =~= seq![op_to_byte(OpCode::OP_RETURN)]);
                }
                if int_literal_source(src) {
                    assert(compiler.chunk.code@ =~= seq![
                        op_to_byte(OpCode::OP_CONSTANT),
                        0u8,
                        0u8,
                        op_to_byte(OpCode::OP_RETURN),
                    ]);
                }
            }
            break ;
        }
        let ghost it_pre = compiler;
        compiler.evaluate();
        proof {
            if !compiler.parser.hadError {
                lemma_sp_advance(src, it_pre.parser.current.toktype, it_pre.scanner.current as int);
                assert(sp_measure(src, it_pre.parser.current.toktype, it_pre.scanner.current as int)
                    == it_pre.pmeasure());
                assert(sp_measure(
                    src,
                    compiler.parser.current.toktype,
                    compiler.scanner.current as int,
                ) == compiler.pmeasure());
                assert(compiler.pmeasure() < it_pre.pmeasure());
                assert(sp_program(
                    src,
                    it_pre.parser.current.toktype,
                    it_pre.parser.current.name@,
                    it_pre.scanner.current as int,
                    it_pre.chunk.constants@.len() as int,
                ) == sp_program(
                    src,
                    compiler.parser.current.toktype,
                    compiler.parser.current.name@,
                    compiler.scanner.current as int,
                    compiler.chunk.constants@.len() as int,
                ));
            }
            if int_literal_source(src) {
                assert(compiler.chunk.constants@ =~= seq![
                    Value::INTEGER(int_literal_value(src) as i64),
                ]);
                assert(compiler.chunk.code@ =~= seq![
                    op_to_byte(OpCode::OP_CONSTANT),
                    0u8,
                    0u8,
                ]);
            }
        }
    }
    if compiler.parser.hadError {
        match compiler.parser.first_error {
            Some(e) => Err(e),
            None => vstd::pervasive::unreached(),
        }
    } else {
        Ok(compiler.chunk)
    }
}

} // verus!
