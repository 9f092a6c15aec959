//! Tests of the tree-shaped intermediate representation and the binary
//! operation descriptors.
use stacklang::ast::ast_tree;
use stacklang::ast::AstNode;
use stacklang::ast::AstNode::N_CONST;
use stacklang::ast::AstValue::INTEGER;
use stacklang::ast::AstValue::STRING;
use stacklang::binops::Binop;
use stacklang::binops::BinopType;
use stacklang::value::ValueType;

#[test]
fn new_tree() {
    let mut tree = ast_tree::new();
    assert_eq!(tree.node_ptr, 0);

    // Add a number node
    tree.push(N_CONST(INTEGER(42)));
    tree.push(N_CONST(INTEGER(43)));
    tree.push(N_CONST(STRING("HEY".to_string())));

    assert_eq!(tree.ast_nodes[0], N_CONST(INTEGER(42)), "Test INTEGER node == 42");
    assert_eq!(tree.ast_nodes[1], N_CONST(INTEGER(43)), "Test INTEGER node == 43");
    assert_eq!(tree.ast_nodes[2], N_CONST(STRING("HEY".to_string())), "Test STRING node == 'HEY'");
}

#[test]
fn preceding_value_types() {
    let mut tree = ast_tree::new();
    tree.push(N_CONST(INTEGER(1)));
    tree.push(N_CONST(STRING("s".to_string())));
    tree.push(N_CONST(INTEGER(2)));
    let types = tree.get_ast_value_type(3, 3);
    assert_eq!(
        types,
        vec![ValueType::VAL_INTEGER, ValueType::VAL_STRING, ValueType::VAL_INTEGER]
    );
    let tail = tree.get_ast_value_type(1, 2);
    assert_eq!(tail, vec![ValueType::VAL_STRING]);
}

#[test]
fn binop_descriptor_holds_its_parts() {
    let b = Binop::new(
        BinopType::B_PLUS,
        (ValueType::VAL_INTEGER, ValueType::VAL_INTEGER),
    );
    assert_eq!(b.optype, BinopType::B_PLUS);
    assert_eq!(b.valtypes, (ValueType::VAL_INTEGER, ValueType::VAL_INTEGER));
}

#[test]
fn operator_nodes_are_accepted() {
    let mut tree = ast_tree::new();
    tree.push(N_CONST(INTEGER(1)));
    tree.push(AstNode::N_BINOP(BinopType::B_MULT));
    assert_eq!(tree.node_ptr, 2);
}
