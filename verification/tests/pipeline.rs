//! End-to-end tests of the compile-and-run pipeline.
use stacklang::compiler::compile;
use stacklang::value::Value;
use stacklang::vm::interpret;
use stacklang::vm::InterpretResult;
use stacklang::vm::VM;
use stacklang::chunk::Chunk;

#[test]
fn precedence_mul_binds_tighter() {
    let r = interpret("2 + 3 * 4".to_string());
    assert_eq!(r, InterpretResult::INTERPRET_OK(Value::INTEGER(14)));
}

#[test]
fn precedence_grouping_overrides() {
    let r = interpret("(2 + 3) * 4".to_string());
    assert_eq!(r, InterpretResult::INTERPRET_OK(Value::INTEGER(20)));
}

#[test]
fn double_negation_composes() {
    let r = interpret("- - 5".to_string());
    assert_eq!(r, InterpretResult::INTERPRET_OK(Value::INTEGER(5)));
}

#[test]
fn expression_statement_reports_result() {
    let r = interpret("2 + 3;".to_string());
    assert_eq!(r, InterpretResult::INTERPRET_OK(Value::INTEGER(5)));
}

#[test]
fn left_associative_subtraction() {
    let r = interpret("10 - 3 - 2".to_string());
    assert_eq!(r, InterpretResult::INTERPRET_OK(Value::INTEGER(5)));
}

#[test]
fn division_truncates() {
    let r = interpret("7 / 2".to_string());
    assert_eq!(r, InterpretResult::INTERPRET_OK(Value::INTEGER(3)));
}

#[test]
fn division_by_zero_is_runtime_error() {
    let r = interpret("1 / 0".to_string());
    assert_eq!(r, InterpretResult::INTERPRET_RUNTIME_ERROR);
}

#[test]
fn comparison_yields_bool() {
    assert_eq!(
        interpret("1 < 2".to_string()),
        InterpretResult::INTERPRET_OK(Value::BOOL(true))
    );
    assert_eq!(
        interpret("1 > 2".to_string()),
        InterpretResult::INTERPRET_OK(Value::BOOL(false))
    );
    assert_eq!(
        interpret("2 >= 2".to_string()),
        InterpretResult::INTERPRET_OK(Value::BOOL(true))
    );
    assert_eq!(
        interpret("3 <= 2".to_string()),
        InterpretResult::INTERPRET_OK(Value::BOOL(false))
    );
}

#[test]
fn equality_is_structural() {
    assert_eq!(
        interpret("1 == 1".to_string()),
        InterpretResult::INTERPRET_OK(Value::BOOL(true))
    );
    assert_eq!(
        interpret("1 != 2".to_string()),
        InterpretResult::INTERPRET_OK(Value::BOOL(true))
    );
    assert_eq!(
        interpret("true == false".to_string()),
        InterpretResult::INTERPRET_OK(Value::BOOL(false))
    );
}

#[test]
fn falsiness_rule() {
    assert_eq!(
        interpret("!nil".to_string()),
        InterpretResult::INTERPRET_OK(Value::BOOL(true))
    );
    assert_eq!(
        interpret("!false".to_string()),
        InterpretResult::INTERPRET_OK(Value::BOOL(true))
    );
    assert_eq!(
        interpret("!0".to_string()),
        InterpretResult::INTERPRET_OK(Value::BOOL(false))
    );
}

#[test]
fn comparison_rewrite_same_code() {
    let ge = compile("2 >= 3".to_string()).unwrap();
    let not_lt = compile("!(2 < 3)".to_string()).unwrap();
    assert_eq!(ge.code, not_lt.code);
    let le = compile("2 <= 3".to_string()).unwrap();
    let not_gt = compile("!(2 > 3)".to_string()).unwrap();
    assert_eq!(le.code, not_gt.code);
    let ne = compile("2 != 3".to_string()).unwrap();
    let not_eq = compile("!(2 == 3)".to_string()).unwrap();
    assert_eq!(ne.code, not_eq.code);
}

#[test]
fn unterminated_string_is_compile_error() {
    let r = compile("\"abc".to_string());
    let e = r.err().expect("an unterminated string must fail to compile");
    assert_eq!(e.message, "Unterminated string");
    assert_eq!(
        interpret("\"abc".to_string()),
        InterpretResult::INTERPRET_COMPILE_ERROR
    );
}

#[test]
fn unexpected_character_is_compile_error() {
    let r = compile("@".to_string());
    let e = r.err().expect("an unrecognized character must fail to compile");
    assert!(e.message.contains('@'), "diagnostic must reference the character");
    assert_eq!(e.message, "Unexpected character '@'");
}

#[test]
fn missing_prefix_is_compile_error() {
    let e = compile("+".to_string()).err().expect("a bare operator must fail");
    assert_eq!(e.message, "Expect expression (no prefix)");
}

#[test]
fn unclosed_paren_is_compile_error() {
    let e = compile("(2".to_string()).err().expect("an unclosed group must fail");
    assert_eq!(e.message, "Expect ')' after expression");
    assert_eq!(e.render(), "[line 1] Error at end: Expect ')' after expression");
}

#[test]
fn invalid_assignment_target_is_compile_error() {
    let e = compile("1 == 1 = 2".to_string()).err().expect("assignment to a value must fail");
    assert_eq!(e.message, "Invalid assignment target.");
}

#[test]
fn placeholder_statements_are_compile_errors() {
    assert!(compile("let".to_string()).is_err());
    assert!(compile("import".to_string()).is_err());
    assert!(compile("if".to_string()).is_err());
}

#[test]
fn constant_pool_overflow_is_compile_error() {
    let source = "7;".repeat(70000);
    let e = compile(source).err().expect("an overfull constant pool must fail");
    assert_eq!(e.message, "Too many constants in one chunk.");
}

#[test]
fn empty_source_compiles_to_bare_return() {
    let c = compile(String::new()).unwrap();
    assert_eq!(c.code, vec![2u8]);
    assert_eq!(c.constants.len(), 0);
    // Running it pops a result that was never pushed: a runtime error,
    // not an out-of-bounds read.
    assert_eq!(
        interpret(String::new()),
        InterpretResult::INTERPRET_RUNTIME_ERROR
    );
}

#[test]
fn stack_underflow_halts_with_runtime_error() {
    // OP_IADD (byte 4) pops two values from an empty stack.
    let chunk = Chunk { code: vec![4, 2], lines: vec![1, 1], constants: vec![] };
    let mut vm = VM::new(chunk);
    assert_eq!(vm.run(), InterpretResult::INTERPRET_RUNTIME_ERROR);
    // OP_RETURN (byte 2) pops the program result from an empty stack.
    let chunk = Chunk { code: vec![2], lines: vec![1], constants: vec![] };
    let mut vm = VM::new(chunk);
    assert_eq!(vm.run(), InterpretResult::INTERPRET_RUNTIME_ERROR);
}

#[test]
fn unknown_opcode_halts_with_runtime_error() {
    let chunk = Chunk { code: vec![0], lines: vec![1], constants: vec![] };
    let mut vm = VM::new(chunk);
    assert_eq!(vm.run(), InterpretResult::INTERPRET_RUNTIME_ERROR);
    let chunk = Chunk { code: vec![200], lines: vec![1], constants: vec![] };
    let mut vm = VM::new(chunk);
    assert_eq!(vm.run(), InterpretResult::INTERPRET_RUNTIME_ERROR);
}

#[test]
fn operand_kind_mismatch_is_runtime_error() {
    assert_eq!(
        interpret("- true".to_string()),
        InterpretResult::INTERPRET_RUNTIME_ERROR
    );
    assert_eq!(
        interpret("1 + true".to_string()),
        InterpretResult::INTERPRET_RUNTIME_ERROR
    );
    assert_eq!(
        interpret("nil < 1".to_string()),
        InterpretResult::INTERPRET_RUNTIME_ERROR
    );
}

#[test]
fn integer_overflow_is_runtime_error() {
    let r = interpret("9223372036854775807 + 1".to_string());
    assert_eq!(r, InterpretResult::INTERPRET_RUNTIME_ERROR);
}

#[test]
fn oversized_literal_is_compile_error() {
    assert!(compile("92233720368547758080".to_string()).is_err());
}

#[test]
fn double_literal_compiles_to_decomposed_constant() {
    let c = compile("12.034".to_string()).unwrap();
    assert_eq!(c.constants, vec![Value::DOUBLE(12, 34, 3)]);
    assert_eq!(
        interpret("1.5".to_string()),
        InterpretResult::INTERPRET_OK(Value::DOUBLE(1, 5, 1))
    );
}

#[test]
fn comments_and_lines_are_tracked() {
    let r = interpret("// nothing here\n2 + 2".to_string());
    assert_eq!(r, InterpretResult::INTERPRET_OK(Value::INTEGER(4)));
    let e = compile("// first line\n@".to_string()).err().unwrap();
    assert_eq!(e.line, 2);
}

#[test]
fn keyword_literals_run() {
    assert_eq!(
        interpret("true".to_string()),
        InterpretResult::INTERPRET_OK(Value::BOOL(true))
    );
    assert_eq!(
        interpret("nil".to_string()),
        InterpretResult::INTERPRET_OK(Value::NIL)
    );
}

#[test]
fn error_render_points_at_token() {
    let e = compile("2 + + 3".to_string()).err().unwrap();
    assert_eq!(e.render(), "[line 1] Error at '3': Expect expression (no prefix)");
}

#[test]
fn lexical_error_render_is_bare() {
    let e = compile("@".to_string()).err().unwrap();
    assert_eq!(e.render(), "[line 1] Error: Unexpected character '@'");
}

#[test]
fn whitespace_only_source_compiles() {
    let c = compile("  // just a comment\n\t \n".to_string()).unwrap();
    assert_eq!(c.code, vec![2u8]);
    assert!(c.constants.is_empty());
}

#[test]
fn sole_literal_reports_itself() {
    assert_eq!(
        interpret("  42  ".to_string()),
        InterpretResult::INTERPRET_OK(Value::INTEGER(42))
    );
    let c = compile(" 7 ".to_string()).unwrap();
    assert_eq!(c.code, vec![1, 0, 0, 2]);
    assert_eq!(c.constants, vec![Value::INTEGER(7)]);
}
