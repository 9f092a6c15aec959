//! Tests of runtime values, their printed forms, and the text helpers.
use stacklang::text::i64_to_string;
use stacklang::text::u64_to_string;
use stacklang::value::Binop;
use stacklang::value::Value;
use stacklang::value::ValueType;

#[test]
fn value_types_match_variants() {
    assert_eq!(Value::BOOL(true).get_type(), ValueType::VAL_BOOL);
    assert_eq!(Value::NIL.get_type(), ValueType::VAL_NIL);
    assert_eq!(Value::INTEGER(7).get_type(), ValueType::VAL_INTEGER);
    assert_eq!(Value::DOUBLE(1, 5, 1).get_type(), ValueType::VAL_DOUBLE);
    assert_eq!(Value::STRING(3).get_type(), ValueType::VAL_STRING);
}

#[test]
fn to_integer_returns_payload() {
    assert_eq!(Value::INTEGER(-42).to_integer(), -42);
    assert_eq!(Value::INTEGER(i64::MAX).to_integer(), i64::MAX);
}

#[test]
fn falsiness_only_nil_and_false() {
    assert!(Value::NIL.is_false());
    assert!(Value::BOOL(false).is_false());
    assert!(!Value::BOOL(true).is_false());
    assert!(!Value::INTEGER(0).is_false());
    assert!(!Value::STRING(0).is_false());
}

#[test]
fn printed_forms() {
    assert_eq!(Value::INTEGER(5).to_string(), "5");
    assert_eq!(Value::INTEGER(-5).to_string(), "-5");
    assert_eq!(Value::INTEGER(i64::MIN).to_string(), "-9223372036854775808");
    assert_eq!(Value::BOOL(true).to_string(), "True");
    assert_eq!(Value::BOOL(false).to_string(), "False");
    assert_eq!(Value::NIL.to_string(), "nil");
    assert_eq!(Value::DOUBLE(12, 34, 3).to_string(), "12.034");
    assert_eq!(Value::DOUBLE(1, 5, 1).to_string(), "1.5");
    assert_eq!(Value::STRING(7).to_string(), "<obj 7>");
}

#[test]
fn structural_equality() {
    assert_eq!(Value::INTEGER(3), Value::INTEGER(3));
    assert_ne!(Value::INTEGER(3), Value::INTEGER(4));
    assert_ne!(Value::INTEGER(1), Value::BOOL(true));
    // Distinct decimal spellings are distinct payloads.
    assert_ne!(Value::DOUBLE(1, 5, 1), Value::DOUBLE(1, 50, 2));
}

#[test]
fn decimal_rendering() {
    assert_eq!(u64_to_string(0), "0");
    assert_eq!(u64_to_string(42), "42");
    assert_eq!(u64_to_string(u64::MAX), "18446744073709551615");
    assert_eq!(i64_to_string(0), "0");
    assert_eq!(i64_to_string(-1), "-1");
    assert_eq!(i64_to_string(i64::MIN), "-9223372036854775808");
}

#[test]
fn binop_symbols() {
    assert_eq!(Binop::PLUS.symbol(), "+");
    assert_eq!(Binop::MINUS.symbol(), "-");
    assert_eq!(Binop::MUL.symbol(), "*");
    assert_eq!(Binop::DIV.symbol(), "/");
    assert_eq!(Binop::MOD.symbol(), "%");
}
