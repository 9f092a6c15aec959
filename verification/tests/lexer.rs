//! Tests of the scanner and the Pratt rule table.
use stacklang::rules::ParseFn;
use stacklang::rules::Precedence;
use stacklang::scanner::newScanner;
use stacklang::scanner::Scanner;
use stacklang::scanner::Token;
use stacklang::scanner::TokenType;

fn scan_all(source: &str) -> Vec<Token> {
    let mut s: Scanner = newScanner(source.to_string());
    let mut out: Vec<Token> = Vec::new();
    loop {
        let t = s.scanToken();
        let done = t.toktype == TokenType::T_EOF;
        out.push(t);
        if done {
            return out;
        }
    }
}

#[test]
fn scans_operators_with_greedy_longest_match() {
    let toks = scan_all("! != = == > >= < <= : ::");
    let kinds: Vec<TokenType> = toks.iter().map(|t| t.toktype).collect();
    assert_eq!(
        kinds,
        vec![
            TokenType::T_BANG,
            TokenType::T_BANG_EQUAL,
            TokenType::T_EQUAL,
            TokenType::T_EQUAL_EQUAL,
            TokenType::T_GREATER,
            TokenType::T_GREATER_EQUAL,
            TokenType::T_LESS,
            TokenType::T_LESS_EQUAL,
            TokenType::T_COLON,
            TokenType::T_DOUBLE_COLON,
            TokenType::T_EOF,
        ]
    );
}

#[test]
fn scans_keywords_and_identifiers() {
    let toks = scan_all("and truex true let looper loop");
    let kinds: Vec<TokenType> = toks.iter().map(|t| t.toktype).collect();
    assert_eq!(
        kinds,
        vec![
            TokenType::T_AND,
            TokenType::T_IDENTIFIER,
            TokenType::T_TRUE,
            TokenType::T_LET,
            TokenType::T_IDENTIFIER,
            TokenType::T_LOOP,
            TokenType::T_EOF,
        ]
    );
    assert_eq!(toks[1].name, "truex");
    assert_eq!(toks[4].name, "looper");
}

#[test]
fn scans_numbers_integer_and_double() {
    let toks = scan_all("42 3.14 7.");
    assert_eq!(toks[0].toktype, TokenType::T_INTEGER);
    assert_eq!(toks[0].name, "42");
    assert_eq!(toks[1].toktype, TokenType::T_DOUBLE);
    assert_eq!(toks[1].name, "3.14");
    // A dot not followed by a digit stays outside the number.
    assert_eq!(toks[2].toktype, TokenType::T_INTEGER);
    assert_eq!(toks[2].name, "7");
    assert_eq!(toks[3].toktype, TokenType::T_DOT);
}

#[test]
fn scans_string_with_quotes_in_lexeme() {
    let toks = scan_all("\"hi\"");
    assert_eq!(toks[0].toktype, TokenType::T_STRING);
    assert_eq!(toks[0].name, "\"hi\"");
}

#[test]
fn string_spanning_newlines_counts_lines() {
    let toks = scan_all("\"a\nb\" 9");
    assert_eq!(toks[0].toktype, TokenType::T_STRING);
    assert_eq!(toks[0].line, 2);
    assert_eq!(toks[1].toktype, TokenType::T_INTEGER);
    assert_eq!(toks[1].line, 2);
}

#[test]
fn unterminated_string_yields_error_token() {
    let toks = scan_all("\"abc");
    assert_eq!(toks[0].toktype, TokenType::T_ERROR);
    assert_eq!(toks[0].name, "Unterminated string");
}

#[test]
fn unexpected_character_yields_error_token() {
    let toks = scan_all("#");
    assert_eq!(toks[0].toktype, TokenType::T_ERROR);
    assert_eq!(toks[0].name, "Unexpected character '#'");
}

#[test]
fn comments_are_skipped_and_lines_counted() {
    let toks = scan_all("1 // rest of line\n2");
    assert_eq!(toks[0].line, 1);
    assert_eq!(toks[1].name, "2");
    assert_eq!(toks[1].line, 2);
}

#[test]
fn eof_is_idempotent() {
    let mut s: Scanner = newScanner("x".to_string());
    let first = s.scanToken();
    assert_eq!(first.toktype, TokenType::T_IDENTIFIER);
    assert_eq!(s.scanToken().toktype, TokenType::T_EOF);
    assert_eq!(s.scanToken().toktype, TokenType::T_EOF);
    assert!(s.isAtEnd());
}

#[test]
fn rule_table_matches_design() {
    let plus = TokenType::T_PLUS.get_rule();
    assert_eq!(plus.prefix, None);
    assert_eq!(plus.infix, Some(ParseFn::P_BINARY));
    assert_eq!(plus.prec, Precedence::PREC_TERM);

    let minus = TokenType::T_MINUS.get_rule();
    assert_eq!(minus.prefix, Some(ParseFn::P_UNARY));
    assert_eq!(minus.infix, Some(ParseFn::P_BINARY));
    assert_eq!(minus.prec, Precedence::PREC_TERM);

    let star = TokenType::T_STAR.get_rule();
    assert_eq!(star.prec, Precedence::PREC_FACTOR);

    let ge = TokenType::T_GREATER_EQUAL.get_rule();
    assert_eq!(ge.infix, Some(ParseFn::P_BINARY));
    assert_eq!(ge.prec, Precedence::PREC_COMPARISON);

    let semi = TokenType::T_SEMICOLON.get_rule();
    assert_eq!(semi.prefix, None);
    assert_eq!(semi.infix, None);
    assert_eq!(semi.prec, Precedence::PREC_NONE);
}

#[test]
fn precedence_levels_are_ordered() {
    assert!(Precedence::PREC_NONE.level() < Precedence::PREC_ASSIGNMENT.level());
    assert!(Precedence::PREC_TERM.level() < Precedence::PREC_FACTOR.level());
    assert!(Precedence::PREC_FACTOR.level() < Precedence::PREC_UNARY.level());
    assert_eq!(Precedence::PREC_TERM.next(), Precedence::PREC_INCR);
    assert_eq!(Precedence::PREC_PRIMARY.next(), Precedence::PREC_PRIMARY);
}

#[test]
fn make_and_error_tokens() {
    let s: Scanner = newScanner("abc".to_string());
    let t = s.makeToken(TokenType::T_IDENTIFIER);
    assert_eq!(t.name, "");
    assert_eq!(t.line, 1);
    let e = s.errorToken("boom".to_string());
    assert_eq!(e.toktype, TokenType::T_ERROR);
    assert_eq!(e.name, "boom");
}
