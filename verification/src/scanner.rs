//! Lexical analysis: a lazy, finite, non-restartable token stream over a
//! character buffer, with one character of lookahead. The scanner skips
//! whitespace and line comments while counting lines, recognizes
//! maximal-munch identifiers and numbers, greedy one- or two-character
//! operators, and double-quoted strings that may span counted newlines.
use vstd::prelude::*;

use crate::rules::{ParseFn, ParseRule, Precedence};
use crate::text::{chars_to_string, push_char};

verus! {

/// The closed enumeration of token kinds.
#[derive(Copy, Clone, PartialEq, Eq, Structural, Debug)]
pub enum TokenType {
    T_LEFT_PAREN,
    T_RIGHT_PAREN,
    T_LEFT_BRACE,
    T_RIGHT_BRACE,
    T_LEFT_BRACKET,
    T_RIGHT_BRACKET,
    T_COMMA,
    T_DOT,
    T_MINUS,
    T_PLUS,
    T_SEMICOLON,
    T_SLASH,
    T_STAR,
    T_COLON,
    T_DOUBLE_COLON,
    T_BANG,
    T_BANG_EQUAL,
    T_EQUAL,
    T_EQUAL_EQUAL,
    T_GREATER,
    T_GREATER_EQUAL,
    T_LESS,
    T_LESS_EQUAL,
    T_IDENTIFIER,
    T_STRING,
    T_INTEGER,
    T_DOUBLE,
    T_BOOL,
    T_AND,
    T_CLASS,
    T_ELSE,
    T_FALSE,
    T_FOR,
    T_FN,
    T_IF,
    T_NIL,
    T_OR,
    T_PRINT,
    T_RETURN,
    T_IMPORT,
    T_THIS,
    T_TRUE,
    T_LET,
    T_LOOP,
    T_MODULE,
    T_ERROR,
    T_EOF,
    T_START,
    T_CR,
}

/// One lexical token: its text, its kind, and the line it ends on. An
/// error token carries its diagnostic message as the text.
#[derive(PartialEq, Debug)]
pub struct Token {
    pub name: String,
    pub toktype: TokenType,
    pub line: usize,
}

/// Field-wise agreement of two tokens, with the lexeme compared by its
/// characters.
pub open spec fn tok_eq(a: Token, b: Token) -> bool {
    a.name@ == b.name@ && a.toktype == b.toktype && a.line == b.line
}

impl Clone for Token {
    fn clone(&self) -> (t: Token)
        ensures
            tok_eq(t, *self),
    {
        Token { name: self.name.clone(), toktype: self.toktype, line: self.line }
    }
}

/// ASCII decimal digit.
pub open spec fn is_digit_c(c: char) -> bool {
    '0' <= c && c <= '9'
}

/// ASCII letter or underscore: the characters that may begin an
/// identifier. The identifier alphabet is deliberately ASCII-only, so
/// that the lexical spec is closed over a fixed character set; any
/// character outside it is reported as unexpected rather than silently
/// classified by a Unicode table the spec could not state.
pub open spec fn is_alpha_c(c: char) -> bool {
    ('a' <= c && c <= 'z') || ('A' <= c && c <= 'Z') || c == '_'
}

/// A character that may continue an identifier.
pub open spec fn is_alnum_c(c: char) -> bool {
    is_alpha_c(c) || is_digit_c(c)
}

/// Whitespace skipped between tokens.
pub open spec fn is_space_c(c: char) -> bool {
    c == ' ' || c == '\r' || c == '\t' || c == '\n'
}

/// Stop predicate for the end of an identifier.
pub open spec fn stop_non_alnum() -> spec_fn(char) -> bool {
    |c: char| !is_alnum_c(c)
}

/// Stop predicate for the end of a digit run.
pub open spec fn stop_non_digit() -> spec_fn(char) -> bool {
    |c: char| !is_digit_c(c)
}

/// Stop predicate for a closing double quote.
pub open spec fn stop_quote() -> spec_fn(char) -> bool {
    |c: char| c == '"'
}

/// Stop predicate for the end of a line.
pub open spec fn stop_newline() -> spec_fn(char) -> bool {
    |c: char| c == '\n'
}

/// The first position at or after `i` where `stop` holds, or the end of
/// the buffer.
pub open spec fn seek(code: Seq<char>, i: int, stop: spec_fn(char) -> bool) -> int
    decreases code.len() - i,
{
    if i < 0 || i >= code.len() || stop(code[i]) {
        i
    } else {
        seek(code, i + 1, stop)
    }
}

/// `seek` stays within bounds, no character before it stops, and the
/// character at it (if any) stops.
pub proof fn lemma_seek(code: Seq<char>, i: int, stop: spec_fn(char) -> bool)
    requires
        0 <= i <= code.len(),
    ensures
        i <= seek(code, i, stop) <= code.len(),
        forall|k: int| i <= k < seek(code, i, stop) ==> !stop(#[trigger] code[k]),
        seek(code, i, stop) < code.len() ==> stop(code[seek(code, i, stop)]),
    decreases code.len() - i,
{
    if i < code.len() && !stop(code[i]) {
        lemma_seek(code, i + 1, stop);
    }
}

/// The number of newline characters in `code[i..j]` (clipped to the
/// buffer).
pub open spec fn nl_count(code: Seq<char>, i: int, j: int) -> int
    decreases j - i,
{
    if i < 0 || i >= j || i >= code.len() {
        0
    } else {
        (if code[i] == '\n' {
            1int
        } else {
            0int
        }) + nl_count(code, i + 1, j)
    }
}

/// Newline counts are non-negative and at most the width of the range.
pub proof fn lemma_nl_bounds(code: Seq<char>, i: int, j: int)
    ensures
        0 <= nl_count(code, i, j),
        i <= j ==> nl_count(code, i, j) <= j - i,
    decreases j - i,
{
    if !(i < 0 || i >= j || i >= code.len()) {
        lemma_nl_bounds(code, i + 1, j);
    }
}

/// Newline counts add up over adjacent ranges.
pub proof fn lemma_nl_split(code: Seq<char>, i: int, k: int, j: int)
    requires
        0 <= i <= k <= j,
    ensures
        nl_count(code, i, j) == nl_count(code, i, k) + nl_count(code, k, j),
    decreases k - i,
{
    if i < k && i < code.len() {
        lemma_nl_split(code, i + 1, k, j);
    }
}

/// The position of the next token start at or after `i`: whitespace and
/// line comments (`//` to end of line) are skipped.
pub open spec fn ws_end(code: Seq<char>, i: int) -> int
    decreases code.len() - i,
        via ws_end_dec
{
    if i < 0 || i >= code.len() {
        i
    } else if is_space_c(code[i]) {
        ws_end(code, i + 1)
    } else if code[i] == '/' && i + 1 < code.len() && code[i + 1] == '/' {
        ws_end(code, seek(code, i + 2, stop_newline()))
    } else {
        i
    }
}

#[via_fn]
proof fn ws_end_dec(code: Seq<char>, i: int) {
    if 0 <= i && i < code.len() && !is_space_c(code[i]) && code[i] == '/' && i + 1 < code.len()
        && code[i + 1] == '/' {
        lemma_seek(code, i + 2, stop_newline());
    }
}

/// `ws_end` stays within bounds and never moves backwards.
pub proof fn lemma_ws_end_bounds(code: Seq<char>, i: int)
    requires
        0 <= i <= code.len(),
    ensures
        i <= ws_end(code, i) <= code.len(),
    decreases code.len() - i,
{
    if i < code.len() {
        if is_space_c(code[i]) {
            lemma_ws_end_bounds(code, i + 1);
        } else if code[i] == '/' && i + 1 < code.len() && code[i + 1] == '/' {
            lemma_seek(code, i + 2, stop_newline());
            lemma_ws_end_bounds(code, seek(code, i + 2, stop_newline()));
        }
    }
}

/// `ws_end` never stops on a whitespace character.
pub proof fn lemma_ws_end_no_space(code: Seq<char>, i: int)
    requires
        0 <= i <= code.len(),
    ensures
        ws_end(code, i) < code.len() ==> !is_space_c(code[ws_end(code, i)]),
    decreases code.len() - i,
{
    if i < code.len() {
        if is_space_c(code[i]) {
            lemma_ws_end_no_space(code, i + 1);
        } else if code[i] == '/' && i + 1 < code.len() && code[i + 1] == '/' {
            lemma_seek(code, i + 2, stop_newline());
            lemma_ws_end_no_space(code, seek(code, i + 2, stop_newline()));
        }
    }
}

/// The keyword a lexeme resolves to, or a plain identifier.
pub open spec fn keyword_type(s: Seq<char>) -> TokenType {
    if s == "and"@ {
        TokenType::T_AND
    } else if s == "or"@ {
        TokenType::T_OR
    } else if s == "if"@ {
        TokenType::T_IF
    } else if s == "return"@ {
        TokenType::T_RETURN
    } else if s == "let"@ {
        TokenType::T_LET
    } else if s == "true"@ {
        TokenType::T_TRUE
    } else if s == "for"@ {
        TokenType::T_FOR
    } else if s == "loop"@ {
        TokenType::T_LOOP
    } else if s == "import"@ {
        TokenType::T_IMPORT
    } else if s == "class"@ {
        TokenType::T_CLASS
    } else if s == "fn"@ {
        TokenType::T_FN
    } else if s == "this"@ {
        TokenType::T_THIS
    } else if s == "false"@ {
        TokenType::T_FALSE
    } else if s == "nil"@ {
        TokenType::T_NIL
    } else if s == "else"@ {
        TokenType::T_ELSE
    } else if s == "bool"@ {
        TokenType::T_BOOL
    } else {
        TokenType::T_IDENTIFIER
    }
}

/// The kind, end position, and contained newline count of the token that
/// starts at position `p` (which must hold a non-whitespace character).
pub open spec fn lex_at(code: Seq<char>, p: int) -> (TokenType, int, int) {
    let c = code[p];
    if is_alpha_c(c) {
        let e = seek(code, p + 1, stop_non_alnum());
        (keyword_type(code.subrange(p, e)), e, 0)
    } else if is_digit_c(c) {
        let e = seek(code, p, stop_non_digit());
        if e < code.len() && code[e] == '.' && e + 1 < code.len() && is_digit_c(code[e + 1]) {
            (TokenType::T_DOUBLE, seek(code, e + 1, stop_non_digit()), 0)
        } else {
            (TokenType::T_INTEGER, e, 0)
        }
    } else if c == '"' {
        let q = seek(code, p + 1, stop_quote());
        if q >= code.len() {
            (TokenType::T_ERROR, code.len() as int, nl_count(code, p + 1, code.len() as int))
        } else {
            (TokenType::T_STRING, q + 1, nl_count(code, p + 1, q))
        }
    } else if c == '(' {
        (TokenType::T_LEFT_PAREN, p + 1, 0)
    } else if c == ')' {
        (TokenType::T_RIGHT_PAREN, p + 1, 0)
    } else if c == '{' {
        (TokenType::T_LEFT_BRACE, p + 1, 0)
    } else if c == '}' {
        (TokenType::T_RIGHT_BRACE, p + 1, 0)
    } else if c == ';' {
        (TokenType::T_SEMICOLON, p + 1, 0)
    } else if c == ',' {
        (TokenType::T_COMMA, p + 1, 0)
    } else if c == '.' {
        (TokenType::T_DOT, p + 1, 0)
    } else if c == '-' {
        (TokenType::T_MINUS, p + 1, 0)
    } else if c == '+' {
        (TokenType::T_PLUS, p + 1, 0)
    } else if c == '/' {
        (TokenType::T_SLASH, p + 1, 0)
    } else if c == '*' {
        (TokenType::T_STAR, p + 1, 0)
    } else if c == ':' {
        if p + 1 < code.len() && code[p + 1] == ':' {
            (TokenType::T_DOUBLE_COLON, p + 2, 0)
        } else {
            (TokenType::T_COLON, p + 1, 0)
        }
    } else if c == '!' {
        if p + 1 < code.len() && code[p + 1] == '=' {
            (TokenType::T_BANG_EQUAL, p + 2, 0)
        } else {
            (TokenType::T_BANG, p + 1, 0)
        }
    } else if c == '=' {
        if p + 1 < code.len() && code[p + 1] == '=' {
            (TokenType::T_EQUAL_EQUAL, p + 2, 0)
        } else {
            (TokenType::T_EQUAL, p + 1, 0)
        }
    } else if c == '>' {
        if p + 1 < code.len() && code[p + 1] == '=' {
            (TokenType::T_GREATER_EQUAL, p + 2, 0)
        } else {
            (TokenType::T_GREATER, p + 1, 0)
        }
    } else if c == '<' {
        if p + 1 < code.len() && code[p + 1] == '=' {
            (TokenType::T_LESS_EQUAL, p + 2, 0)
        } else {
            (TokenType::T_LESS, p + 1, 0)
        }
    } else {
        (TokenType::T_ERROR, p + 1, 0)
    }
}

/// The scanner state: the character buffer, the start of the token being
/// scanned, the read cursor, and the current line number.
pub struct Scanner {
    pub code: Vec<char>,
    pub start: usize,
    pub current: usize,
    pub line: usize,
}

impl Scanner {
    /// Cursor sanity: the token start and the read cursor stay within
    /// the buffer, whose length leaves headroom for line arithmetic.
    pub open spec fn pos_wf(self) -> bool {
        self.start <= self.current <= self.code@.len() && self.code@.len() < usize::MAX
    }

    /// The line counter equals one plus the newlines already consumed.
    pub open spec fn line_wf(self) -> bool {
        self.line as int == 1 + nl_count(self.code@, 0, self.current as int)
    }
}

pub(crate) fn ch_is_alpha(c: char) -> (r: bool)
    ensures
        r == is_alpha_c(c),
{
    ('a' <= c && c <= 'z') || ('A' <= c && c <= 'Z') || c == '_'
}

pub(crate) fn ch_is_digit(c: char) -> (r: bool)
    ensures
        r == is_digit_c(c),
{
    '0' <= c && c <= '9'
}

/// What one scan step guarantees: the buffer is unchanged and the
/// cursors stay sound, the token starts at the first non-skipped
/// position, and its kind, end position, line, and text are the ones
/// `lex_at` assigns there (an EOF token at the end of input, returned
/// without moving).
pub open spec fn scan_post(pre: Scanner, post: Scanner, t: Token) -> bool {
    &&& post.code == pre.code
    &&& post.pos_wf()
    &&& post.line_wf()
    &&& pre.current <= post.current
    &&& (pre.current as int >= pre.code@.len() ==> post.current == pre.current)
    &&& ({
        let code = pre.code@;
        let p = ws_end(code, pre.current as int);
        let pl = pre.line + nl_count(code, pre.current as int, p);
        &&& post.start as int == p
        &&& if p >= code.len() {
            &&& post.current as int == p
            &&& t.toktype == TokenType::T_EOF
            &&& t.name@ == Seq::<char>::empty()
            &&& t.line as int == pl
        } else {
            let lx = lex_at(code, p);
            &&& t.toktype == lx.0
            &&& post.current as int == lx.1
            &&& t.line as int == pl + lx.2
            &&& (lx.0 != TokenType::T_ERROR ==> t.name@ == code.subrange(p, lx.1))
            &&& (lx.0 == TokenType::T_ERROR ==> t.name@ == (if code[p] == '"' {
                "Unterminated string"@
            } else {
                "Unexpected character '"@ + seq![code[p]] + "'"@
            }))
        }
    })
}

/// A fresh scanner over the given source text, positioned at its start
/// on line 1.
pub fn newScanner(source: String) -> (s: Scanner)
    requires
        source@.len() < usize::MAX,
    ensures
        s.code@ == source@,
        s.start == 0,
        s.current == 0,
        s.line == 1,
        s.pos_wf(),
        s.line_wf(),
{
    Scanner { code: crate::text::str_chars(source.as_str()), start: 0, current: 0, line: 1 }
}

impl Scanner {
    /// Whether the whole buffer has been consumed.
    pub fn isAtEnd(&self) -> (r: bool)
        ensures
            r == (self.current >= self.code@.len()),
    {
        self.current >= self.code.len()
    }

    fn peek(&self) -> (c: char)
        requires
            self.current < self.code@.len(),
        ensures
            c == self.code@[self.current as int],
    {
        self.code[self.current]
    }

    fn peekNext(&self) -> (c: char)
        requires
            self.current < usize::MAX,
            self.current + 1 < self.code@.len(),
        ensures
            c == self.code@[self.current as int + 1],
    {
        self.code[self.current + 1]
    }

    fn advance(&mut self) -> (c: char)
        requires
            old(self).current < usize::MAX,
            old(self).current < old(self).code@.len(),
        ensures
            final(self).code == old(self).code,
            final(self).start == old(self).start,
            final(self).line == old(self).line,
            final(self).current == old(self).current + 1,
            c == old(self).code@[old(self).current as int],
    {
        self.current = self.current + 1;
        self.code[self.current - 1]
    }

    fn cmatch(&mut self, expected: char) -> (r: bool)
        requires
            old(self).current < usize::MAX,
            old(self).current <= old(self).code@.len(),
        ensures
            final(self).code == old(self).code,
            final(self).start == old(self).start,
            final(self).line == old(self).line,
            r == (old(self).current < old(self).code@.len() && old(self).code@[old(
                self,
            ).current as int] == expected),
            final(self).current == if r {
                old(self).current + 1
            } else {
                old(self).current as int
            },
    {
        if self.isAtEnd() {
            return false;
        }
        if self.code[self.current] != expected {
            return false;
        }
        self.current = self.current + 1;
        true
    }

    /// A token of the given kind whose text is the lexeme currently
    /// delimited by `start..current`.
    pub fn makeToken(&self, tokType: TokenType) -> (t: Token)
        requires
            self.start <= self.current <= self.code@.len(),
        ensures
            t.toktype == tokType,
            t.line == self.line,
            t.name@ == self.code@.subrange(self.start as int, self.current as int),
    {
        let mut v: Vec<char> = Vec::new();
        let mut i: usize = self.start;
        while i < self.current
            invariant
                self.start <= i <= self.current <= self.code@.len(),
                v@ == self.code@.subrange(self.start as int, i as int),
            decreases self.current - i,
        {
            v.push(self.code[i]);
            i = i + 1;
            proof {
                assert(v@ =~= self.code@.subrange(self.start as int, i as int));
            }
        }
        Token { name: chars_to_string(&v), toktype: tokType, line: self.line }
    }

    /// An error token carrying the given diagnostic message as its text.
    pub fn errorToken(&self, message: String) -> (t: Token)
        ensures
            t.toktype == TokenType::T_ERROR,
            t.line == self.line,
            t.name == message,
    {
        Token { name: message, toktype: TokenType::T_ERROR, line: self.line }
    }

    /// One consumed character contributes its own newline count.
    proof fn lemma_nl_step(code: Seq<char>, i: int)
        requires
            0 <= i < code.len(),
        ensures
            nl_count(code, i, i + 1) == if code[i] == '\n' {
                1int
            } else {
                0int
            },
    {
        reveal_with_fuel(nl_count, 2);
    }

    #[verifier::loop_isolation(false)]
    fn skipWhitespace(&mut self)
        requires
            old(self).pos_wf(),
            old(self).line_wf(),
        ensures
            final(self).code == old(self).code,
            final(self).start == old(self).start,
            final(self).pos_wf(),
            final(self).line_wf(),
            old(self).current <= final(self).current,
            final(self).current as int == ws_end(old(self).code@, old(self).current as int),
    {
        loop
            invariant
                self.code == old(self).code,
                self.start == old(self).start,
                self.pos_wf(),
                self.line_wf(),
                old(self).current <= self.current,
                ws_end(self.code@, old(self).current as int) == ws_end(
                    self.code@,
                    self.current as int,
                ),
            decreases self.code@.len() - self.current,
        {
            let ghost code = self.code@;
            if self.isAtEnd() {
                return ;
            }
            let c = self.peek();
            let ghost cur = self.current as int;
            proof {
                lemma_nl_bounds(code, 0, cur);
            }
            if c == ' ' || c == '\r' || c == '\t' || c == '\n' {
                proof {
                    lemma_nl_split(code, 0, cur, cur + 1);
                    Self::lemma_nl_step(code, cur);
                }
                if c == '\n' {
                    self.line = self.line + 1;
                }
                let _ = self.advance();
            } else if c == '/' && self.current + 1 < self.code.len() && self.peekNext() == '/' {
                let ghost t = seek(code, cur + 2, stop_newline());
                proof {
                    lemma_seek(code, cur + 2, stop_newline());
                    lemma_nl_split(code, 0, cur, cur + 1);
                    lemma_nl_split(code, 0, cur + 1, cur + 2);
                    Self::lemma_nl_step(code, cur);
                    Self::lemma_nl_step(code, cur + 1);
                }
                let _ = self.advance();
                let _ = self.advance();
                while self.current < self.code.len() && self.peek() != '\n'
                    invariant
                        self.code == old(self).code,
                        self.start == old(self).start,
                        self.pos_wf(),
                        self.line_wf(),
                        cur + 2 <= self.current,
                        t == seek(code, self.current as int, stop_newline()),
                    decreases self.code@.len() - self.current,
                {
                    let ghost c2 = self.current as int;
                    proof {
                        lemma_nl_split(code, 0, c2, c2 + 1);
                        Self::lemma_nl_step(code, c2);
                    }
                    let _ = self.advance();
                }
                proof {
                    // The cursor stopped exactly at the comment's end.
                    assert(self.current as int == t);
                    // Skipping from the comment start reaches the same
                    // next-token position.
                    assert(ws_end(code, cur) == ws_end(code, t));
                }
            } else {
                return ;
            }
        }
    }

    /// The keyword this identifier lexeme resolves to, or a plain
    /// identifier when it matches none.
    pub fn identifierType(&self, ident: &str) -> (t: TokenType)
        ensures
            t == keyword_type(ident@),
    {
        let id = ident.to_owned();
        if id == String::from_str("and") {
            TokenType::T_AND
        } else if id == String::from_str("or") {
            TokenType::T_OR
        } else if id == String::from_str("if") {
            TokenType::T_IF
        } else if id == String::from_str("return") {
            TokenType::T_RETURN
        } else if id == String::from_str("let") {
            TokenType::T_LET
        } else if id == String::from_str("true") {
            TokenType::T_TRUE
        } else if id == String::from_str("for") {
            TokenType::T_FOR
        } else if id == String::from_str("loop") {
            TokenType::T_LOOP
        } else if id == String::from_str("import") {
            TokenType::T_IMPORT
        } else if id == String::from_str("class") {
            TokenType::T_CLASS
        } else if id == String::from_str("fn") {
            TokenType::T_FN
        } else if id == String::from_str("this") {
            TokenType::T_THIS
        } else if id == String::from_str("false") {
            TokenType::T_FALSE
        } else if id == String::from_str("nil") {
            TokenType::T_NIL
        } else if id == String::from_str("else") {
            TokenType::T_ELSE
        } else if id == String::from_str("bool") {
            TokenType::T_BOOL
        } else {
            TokenType::T_IDENTIFIER
        }
    }

    fn at_alnum(&self) -> (r: bool)
        requires
            self.current <= self.code@.len(),
        ensures
            r == (self.current < self.code@.len() && is_alnum_c(
                self.code@[self.current as int],
            )),
    {
        if self.current < self.code.len() {
            let ch = self.peek();
            ch_is_alpha(ch) || ch_is_digit(ch)
        } else {
            false
        }
    }

    fn at_digit(&self) -> (r: bool)
        requires
            self.current <= self.code@.len(),
        ensures
            r == (self.current < self.code@.len() && is_digit_c(
                self.code@[self.current as int],
            )),
    {
        if self.current < self.code.len() {
            let ch = self.peek();
            ch_is_digit(ch)
        } else {
            false
        }
    }

    #[verifier::loop_isolation(false)]
    fn identifier(&mut self) -> (t: Token)
        requires
            old(self).pos_wf(),
            old(self).line_wf(),
            old(self).start + 1 == old(self).current,
            is_alpha_c(old(self).code@[old(self).start as int]),
        ensures
            final(self).code == old(self).code,
            final(self).start == old(self).start,
            final(self).line == old(self).line,
            final(self).pos_wf(),
            final(self).line_wf(),
            final(self).current as int == seek(
                old(self).code@,
                old(self).start + 1,
                stop_non_alnum(),
            ),
            t.toktype == keyword_type(
                old(self).code@.subrange(old(self).start as int, final(self).current as int),
            ),
            t.name@ == old(self).code@.subrange(old(self).start as int, final(self).current as int),
            t.line == old(self).line,
    {
        let ghost code = self.code@;
        let ghost e = seek(code, old(self).start + 1, stop_non_alnum());
        while self.at_alnum()
            invariant
                self.code == old(self).code,
                self.start == old(self).start,
                self.line == old(self).line,
                self.pos_wf(),
                self.line_wf(),
                old(self).start + 1 <= self.current,
                e == seek(code, self.current as int, stop_non_alnum()),
            decreases self.code@.len() - self.current,
        {
            let ghost c2 = self.current as int;
            proof {
                lemma_nl_split(code, 0, c2, c2 + 1);
                Self::lemma_nl_step(code, c2);
            }
            let _ = self.advance();
        }
        proof {
            assert(self.current as int == e);
        }
        let named = self.makeToken(TokenType::T_IDENTIFIER);
        let kind = self.identifierType(named.name.as_str());
        self.makeToken(kind)
    }

    #[verifier::loop_isolation(false)]
    fn number(&mut self) -> (t: Token)
        requires
            old(self).pos_wf(),
            old(self).line_wf(),
            old(self).start + 1 == old(self).current,
            is_digit_c(old(self).code@[old(self).start as int]),
        ensures
            final(self).code == old(self).code,
            final(self).start == old(self).start,
            final(self).line == old(self).line,
            final(self).pos_wf(),
            final(self).line_wf(),
            ({
                let code = old(self).code@;
                let p = old(self).start as int;
                let lx = lex_at(code, p);
                &&& t.toktype == lx.0
                &&& final(self).current as int == lx.1
                &&& t.name@ == code.subrange(p, lx.1)
                &&& t.line == old(self).line
            }),
    {
        let ghost code = self.code@;
        let ghost p = old(self).start as int;
        let ghost e1 = seek(code, p, stop_non_digit());
        while self.at_digit()
            invariant
                self.code == old(self).code,
                self.start == old(self).start,
                self.line == old(self).line,
                self.pos_wf(),
                self.line_wf(),
                p + 1 <= self.current,
                e1 == seek(code, self.current as int, stop_non_digit()),
            decreases self.code@.len() - self.current,
        {
            let ghost c2 = self.current as int;
            proof {
                lemma_nl_split(code, 0, c2, c2 + 1);
                Self::lemma_nl_step(code, c2);
            }
            let _ = self.advance();
        }
        proof {
            assert(self.current as int == e1);
        }
        if self.current < self.code.len() && self.peek() == '.' && self.current + 1
            < self.code.len() && ch_is_digit(self.peekNext()) {
            proof {
                lemma_nl_split(code, 0, e1, e1 + 1);
                Self::lemma_nl_step(code, e1);
            }
            let _ = self.advance();
            let ghost e2 = seek(code, e1 + 1, stop_non_digit());
            while self.at_digit()
                invariant
                    self.code == old(self).code,
                    self.start == old(self).start,
                    self.line == old(self).line,
                    self.pos_wf(),
                    self.line_wf(),
                    e1 + 1 <= self.current,
                    e2 == seek(code, self.current as int, stop_non_digit()),
                decreases self.code@.len() - self.current,
            {
                let ghost c2 = self.current as int;
                proof {
                    lemma_nl_split(code, 0, c2, c2 + 1);
                    Self::lemma_nl_step(code, c2);
                }
                let _ = self.advance();
            }
            proof {
                assert(self.current as int == e2);
            }
            return self.makeToken(TokenType::T_DOUBLE);
        }
        self.makeToken(TokenType::T_INTEGER)
    }

    #[verifier::loop_isolation(false)]
    fn string(&mut self) -> (t: Token)
        requires
            old(self).pos_wf(),
            old(self).line_wf(),
            old(self).start + 1 == old(self).current,
            old(self).code@[old(self).start as int] == '"',
        ensures
            final(self).code == old(self).code,
            final(self).start == old(self).start,
            final(self).pos_wf(),
            final(self).line_wf(),
            ({
                let code = old(self).code@;
                let p = old(self).start as int;
                let q = seek(code, p + 1, stop_quote());
                if q >= code.len() {
                    &&& t.toktype == TokenType::T_ERROR
                    &&& t.name@ == "Unterminated string"@
                    &&& final(self).current as int == code.len()
                    &&& t.line as int == old(self).line + nl_count(code, p + 1, code.len() as int)
                } else {
                    &&& t.toktype == TokenType::T_STRING
                    &&& t.name@ == code.subrange(p, q + 1)
                    &&& final(self).current as int == q + 1
                    &&& t.line as int == old(self).line + nl_count(code, p + 1, q)
                }
            }),
    {
        let ghost code = self.code@;
        let ghost p = old(self).start as int;
        let ghost q = seek(code, p + 1, stop_quote());
        proof {
            lemma_nl_split(code, 0, p, p + 1);
            Self::lemma_nl_step(code, p);
        }
        while self.current < self.code.len() && self.peek() != '"'
            invariant
                self.code == old(self).code,
                self.start == old(self).start,
                self.pos_wf(),
                self.line_wf(),
                p + 1 <= self.current,
                q == seek(code, self.current as int, stop_quote()),
                self.line as int == old(self).line + nl_count(code, p + 1, self.current as int),
            decreases self.code@.len() - self.current,
        {
            let ghost c2 = self.current as int;
            proof {
                lemma_nl_split(code, 0, c2, c2 + 1);
                lemma_nl_split(code, p + 1, c2, c2 + 1);
                Self::lemma_nl_step(code, c2);
                lemma_nl_bounds(code, 0, c2);
            }
            if self.peek() == '\n' {
                self.line = self.line + 1;
            }
            let _ = self.advance();
        }
        proof {
            assert(self.current as int == q);
        }
        if self.current >= self.code.len() {
            return self.errorToken(String::from_str("Unterminated string"));
        }
        proof {
            lemma_nl_split(code, 0, q, q + 1);
            Self::lemma_nl_step(code, q);
        }
        let _ = self.advance();
        self.makeToken(TokenType::T_STRING)
    }

    /// Scans and returns the next token. Whitespace and line comments are
    /// skipped first; at the end of input an EOF token is returned, and
    /// idempotently so thereafter. An unterminated string or an
    /// unrecognized character yields an error token whose text is the
    /// diagnostic message.
    pub fn scanToken(&mut self) -> (t: Token)
        requires
            old(self).pos_wf(),
            old(self).line_wf(),
        ensures
            scan_post(*old(self), *final(self), t),
    {
        let ghost code = self.code@;
        let ghost oc = old(self).current as int;
        self.skipWhitespace();
        proof {
            lemma_ws_end_bounds(code, oc);
            lemma_ws_end_no_space(code, oc);
            lemma_nl_split(code, 0, oc, self.current as int);
        }
        self.start = self.current;
        let ghost p = self.current as int;
        if self.isAtEnd() {
            let t = self.makeToken(TokenType::T_EOF);
            proof {
                assert(t.name@ =~= Seq::<char>::empty());
            }
            return t;
        }
        let c = self.advance();
        proof {
            lemma_nl_split(code, 0, p, p + 1);
            Self::lemma_nl_step(code, p);
        }
        if ch_is_alpha(c) {
            return self.identifier();
        }
        if ch_is_digit(c) {
            return self.number();
        }
        match c {
            '(' => self.makeToken(TokenType::T_LEFT_PAREN),
            ')' => self.makeToken(TokenType::T_RIGHT_PAREN),
            '{' => self.makeToken(TokenType::T_LEFT_BRACE),
            '}' => self.makeToken(TokenType::T_RIGHT_BRACE),
            ';' => self.makeToken(TokenType::T_SEMICOLON),
            ',' => self.makeToken(TokenType::T_COMMA),
            '.' => self.makeToken(TokenType::T_DOT),
            '-' => self.makeToken(TokenType::T_MINUS),
            '+' => self.makeToken(TokenType::T_PLUS),
            '/' => self.makeToken(TokenType::T_SLASH),
            '*' => self.makeToken(TokenType::T_STAR),
            ':' => {
                let two = self.cmatch(':');
                proof {
                    if two {
                        lemma_nl_split(code, 0, p + 1, p + 2);
                        Self::lemma_nl_step(code, p + 1);
                    }
                }
                if two {
                    self.makeToken(TokenType::T_DOUBLE_COLON)
                } else {
                    self.makeToken(TokenType::T_COLON)
                }
            },
            '!' => {
                let two = self.cmatch('=');
                proof {
                    if two {
                        lemma_nl_split(code, 0, p + 1, p + 2);
                        Self::lemma_nl_step(code, p + 1);
                    }
                }
                if two {
                    self.makeToken(TokenType::T_BANG_EQUAL)
                } else {
                    self.makeToken(TokenType::T_BANG)
                }
            },
            '=' => {
                let two = self.cmatch('=');
                proof {
                    if two {
                        lemma_nl_split(code, 0, p + 1, p + 2);
                        Self::lemma_nl_step(code, p + 1);
                    }
                }
                if two {
                    self.makeToken(TokenType::T_EQUAL_EQUAL)
                } else {
                    self.makeToken(TokenType::T_EQUAL)
                }
            },
            '>' => {
                let two = self.cmatch('=');
                proof {
                    if two {
                        lemma_nl_split(code, 0, p + 1, p + 2);
                        Self::lemma_nl_step(code, p + 1);
                    }
                }
                if two {
                    self.makeToken(TokenType::T_GREATER_EQUAL)
                } else {
                    self.makeToken(TokenType::T_GREATER)
                }
            },
            '<' => {
                let two = self.cmatch('=');
                proof {
                    if two {
                        lemma_nl_split(code, 0, p + 1, p + 2);
                        Self::lemma_nl_step(code, p + 1);
                    }
                }
                if two {
                    self.makeToken(TokenType::T_LESS_EQUAL)
                } else {
                    self.makeToken(TokenType::T_LESS)
                }
            },
            '"' => self.string(),
            _ => {
                let mut msg = String::from_str("Unexpected character '");
                push_char(&mut msg, c);
                msg.append("'");
                proof {
                    assert(msg@ =~= "Unexpected character '"@ + seq![c] + "'"@);
                }
                self.errorToken(msg)
            },
        }
    }
}

/// The kind, end position, and contained newline count that `lex_at`
/// assigns never leave the buffer, and the end lies past the start.
pub proof fn lemma_lex_at_bounds(code: Seq<char>, p: int)
    requires
        0 <= p < code.len(),
    ensures
        p < lex_at(code, p).1 <= code.len(),
{
    let c = code[p];
    if is_alpha_c(c) {
        lemma_seek(code, p + 1, stop_non_alnum());
    } else if is_digit_c(c) {
        lemma_seek(code, p, stop_non_digit());
        let e = seek(code, p, stop_non_digit());
        if e < code.len() && code[e] == '.' && e + 1 < code.len() && is_digit_c(code[e + 1]) {
            lemma_seek(code, e + 1, stop_non_digit());
        }
    } else if c == '"' {
        lemma_seek(code, p + 1, stop_quote());
    }
}

/// The fixed Pratt rule assigned to each token kind.
pub open spec fn rule_spec(t: TokenType) -> ParseRule {
    match t {
        TokenType::T_LEFT_PAREN => ParseRule {
            prefix: Some(ParseFn::P_GROUPING),
            infix: None,
            prec: Precedence::PREC_NONE,
        },
        TokenType::T_INTEGER => ParseRule {
            prefix: Some(ParseFn::P_INTEGER),
            infix: None,
            prec: Precedence::PREC_NONE,
        },
        TokenType::T_DOUBLE => ParseRule {
            prefix: Some(ParseFn::P_DOUBLE),
            infix: None,
            prec: Precedence::PREC_NONE,
        },
        TokenType::T_MINUS => ParseRule {
            prefix: Some(ParseFn::P_UNARY),
            infix: Some(ParseFn::P_BINARY),
            prec: Precedence::PREC_TERM,
        },
        TokenType::T_PLUS => ParseRule {
            prefix: None,
            infix: Some(ParseFn::P_BINARY),
            prec: Precedence::PREC_TERM,
        },
        TokenType::T_STAR => ParseRule {
            prefix: None,
            infix: Some(ParseFn::P_BINARY),
            prec: Precedence::PREC_FACTOR,
        },
        TokenType::T_SLASH => ParseRule {
            prefix: None,
            infix: Some(ParseFn::P_BINARY),
            prec: Precedence::PREC_FACTOR,
        },
        TokenType::T_FALSE => ParseRule {
            prefix: Some(ParseFn::P_LITERAL),
            infix: None,
            prec: Precedence::PREC_NONE,
        },
        TokenType::T_TRUE => ParseRule {
            prefix: Some(ParseFn::P_LITERAL),
            infix: None,
            prec: Precedence::PREC_NONE,
        },
        TokenType::T_NIL => ParseRule {
            prefix: Some(ParseFn::P_LITERAL),
            infix: None,
            prec: Precedence::PREC_NONE,
        },
        TokenType::T_BANG => ParseRule {
            prefix: Some(ParseFn::P_UNARY),
            infix: None,
            prec: Precedence::PREC_NONE,
        },
        TokenType::T_BANG_EQUAL => ParseRule {
            prefix: None,
            infix: Some(ParseFn::P_BINARY),
            prec: Precedence::PREC_EQUALITY,
        },
        TokenType::T_EQUAL_EQUAL => ParseRule {
            prefix: None,
            infix: Some(ParseFn::P_BINARY),
            prec: Precedence::PREC_EQUALITY,
        },
        TokenType::T_GREATER => ParseRule {
            prefix: None,
            infix: Some(ParseFn::P_BINARY),
            prec: Precedence::PREC_COMPARISON,
        },
        TokenType::T_GREATER_EQUAL => ParseRule {
            prefix: None,
            infix: Some(ParseFn::P_BINARY),
            prec: Precedence::PREC_COMPARISON,
        },
        TokenType::T_LESS => ParseRule {
            prefix: None,
            infix: Some(ParseFn::P_BINARY),
            prec: Precedence::PREC_COMPARISON,
        },
        TokenType::T_LESS_EQUAL => ParseRule {
            prefix: None,
            infix: Some(ParseFn::P_BINARY),
            prec: Precedence::PREC_COMPARISON,
        },
        _ => ParseRule { prefix: None, infix: None, prec: Precedence::PREC_NONE },
    }
}

impl TokenType {
    /// The Pratt dispatch rule of this token kind.
    pub fn get_rule(&self) -> (r: ParseRule)
        ensures
            r == rule_spec(*self),
    {
        match self {
            TokenType::T_LEFT_PAREN => ParseRule {
                prefix: Some(ParseFn::P_GROUPING),
                infix: None,
                prec: Precedence::PREC_NONE,
            },
            TokenType::T_INTEGER => ParseRule {
                prefix: Some(ParseFn::P_INTEGER),
                infix: None,
                prec: Precedence::PREC_NONE,
            },
            TokenType::T_DOUBLE => ParseRule {
                prefix: Some(ParseFn::P_DOUBLE),
                infix: None,
                prec: Precedence::PREC_NONE,
            },
            TokenType::T_MINUS => ParseRule {
                prefix: Some(ParseFn::P_UNARY),
                infix: Some(ParseFn::P_BINARY),
                prec: Precedence::PREC_TERM,
            },
            TokenType::T_PLUS => ParseRule {
                prefix: None,
                infix: Some(ParseFn::P_BINARY),
                prec: Precedence::PREC_TERM,
            },
            TokenType::T_STAR => ParseRule {
                prefix: None,
                infix: Some(ParseFn::P_BINARY),
                prec: Precedence::PREC_FACTOR,
            },
            TokenType::T_SLASH => ParseRule {
                prefix: None,
                infix: Some(ParseFn::P_BINARY),
                prec: Precedence::PREC_FACTOR,
            },
            TokenType::T_FALSE => ParseRule {
                prefix: Some(ParseFn::P_LITERAL),
                infix: None,
                prec: Precedence::PREC_NONE,
            },
            TokenType::T_TRUE => ParseRule {
                prefix: Some(ParseFn::P_LITERAL),
                infix: None,
                prec: Precedence::PREC_NONE,
            },
            TokenType::T_NIL => ParseRule {
                prefix: Some(ParseFn::P_LITERAL),
                infix: None,
                prec: Precedence::PREC_NONE,
            },
            TokenType::T_BANG => ParseRule {
                prefix: Some(ParseFn::P_UNARY),
                infix: None,
                prec: Precedence::PREC_NONE,
            },
            TokenType::T_BANG_EQUAL => ParseRule {
                prefix: None,
                infix: Some(ParseFn::P_BINARY),
                prec: Precedence::PREC_EQUALITY,
            },
            TokenType::T_EQUAL_EQUAL => ParseRule {
                prefix: None,
                infix: Some(ParseFn::P_BINARY),
                prec: Precedence::PREC_EQUALITY,
            },
            TokenType::T_GREATER => ParseRule {
                prefix: None,
                infix: Some(ParseFn::P_BINARY),
                prec: Precedence::PREC_COMPARISON,
            },
            TokenType::T_GREATER_EQUAL => ParseRule {
                prefix: None,
                infix: Some(ParseFn::P_BINARY),
                prec: Precedence::PREC_COMPARISON,
            },
            TokenType::T_LESS => ParseRule {
                prefix: None,
                infix: Some(ParseFn::P_BINARY),
                prec: Precedence::PREC_COMPARISON,
            },
            TokenType::T_LESS_EQUAL => ParseRule {
                prefix: None,
                infix: Some(ParseFn::P_BINARY),
                prec: Precedence::PREC_COMPARISON,
            },
            _ => ParseRule { prefix: None, infix: None, prec: Precedence::PREC_NONE },
        }
    }
}

} // verus!
