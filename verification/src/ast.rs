//! A tree-shaped intermediate representation for a future typed
//! front-end pass: tagged nodes that carry either a typed constant leaf
//! or a binary operator. Code generation does not consume it; it exists
//! so a type-checking pass can be built before emission.
use vstd::prelude::*;

use crate::binops::BinopType;
use crate::value::ValueType;

verus! {

/// A typed constant carried by a leaf node. The `DOUBLE` payload is the
/// decimal decomposition also used by runtime values; `STRING` carries
/// its text directly, since no object table exists at this stage.
#[derive(Clone, PartialEq, Debug)]
pub enum AstValue {
    BOOL(bool),
    NIL,
    INTEGER(i64),
    DOUBLE(i64, u64, u32),
    STRING(String),
}

/// The kind of value a constant leaf carries.
pub open spec fn ast_value_type(v: AstValue) -> ValueType {
    match v {
        AstValue::BOOL(_) => ValueType::VAL_BOOL,
        AstValue::NIL => ValueType::VAL_NIL,
        AstValue::INTEGER(_) => ValueType::VAL_INTEGER,
        AstValue::DOUBLE(_, _, _) => ValueType::VAL_DOUBLE,
        AstValue::STRING(_) => ValueType::VAL_STRING,
    }
}

/// One tree node: a constant leaf, or a binary operator.
#[derive(Clone, PartialEq, Debug)]
pub enum AstNode {
    N_CONST(AstValue),
    N_BINOP(BinopType),
}

/// The kind of value a node stands for; an operator node is reported as
/// nil, since it carries no constant.
pub open spec fn ast_node_type(n: AstNode) -> ValueType {
    match n {
        AstNode::N_CONST(v) => ast_value_type(v),
        AstNode::N_BINOP(_) => ValueType::VAL_NIL,
    }
}

/// The tree: nodes in insertion order, and the position one past the
/// last node pushed.
pub struct ast_tree {
    pub node_ptr: usize,
    pub ast_nodes: Vec<AstNode>,
}

impl ast_tree {
    /// The tree invariant: the node pointer counts the nodes held.
    pub open spec fn wf(self) -> bool {
        self.node_ptr == self.ast_nodes@.len()
    }

    /// An empty tree.
    pub fn new() -> (t: ast_tree)
        ensures
            t.wf(),
            t.node_ptr == 0,
            t.ast_nodes@.len() == 0,
    {
        ast_tree { node_ptr: 0, ast_nodes: Vec::new() }
    }

    /// Appends one node and advances the node pointer.
    pub fn push(&mut self, n: AstNode)
        requires
            old(self).wf(),
            old(self).ast_nodes@.len() < usize::MAX,
        ensures
            final(self).wf(),
            final(self).ast_nodes@ == old(self).ast_nodes@.push(n),
            final(self).node_ptr == old(self).node_ptr + 1,
    {
        self.ast_nodes.push(n);
        self.node_ptr = self.node_ptr + 1;
    }

    /// The value kinds of the `number_of_nodes_to_seek` constant nodes
    /// that precede `current_position`, in tree order.
    pub fn get_ast_value_type(&self, number_of_nodes_to_seek: i32, current_position: usize) -> (r:
        Vec<ValueType>)
        requires
            0 <= number_of_nodes_to_seek,
            number_of_nodes_to_seek as int <= current_position as int,
            current_position <= self.ast_nodes@.len(),
            forall|k: int|
                current_position - number_of_nodes_to_seek <= k < current_position
                    ==> #[trigger] self.ast_nodes@[k] matches AstNode::N_CONST(_),
        ensures
            r@.len() == number_of_nodes_to_seek as int,
            forall|k: int|
                0 <= k < r@.len() ==> #[trigger] r@[k] == ast_node_type(
                    self.ast_nodes@[current_position - number_of_nodes_to_seek + k],
                ),
    {
        let n = number_of_nodes_to_seek as usize;
        let base = current_position - n;
        let mut vtypes: Vec<ValueType> = Vec::new();
        let mut i: usize = 0;
        #[verifier::loop_isolation(false)]
        while i < n
            invariant
                0 <= i <= n,
                vtypes@.len() == i as int,
                forall|k: int|
                    0 <= k < i ==> #[trigger] vtypes@[k] == ast_node_type(
                        self.ast_nodes@[base + k],
                    ),
            decreases n - i,
        {
            let t = match &self.ast_nodes[base + i] {
                AstNode::N_CONST(v) => match v {
                    AstValue::BOOL(_) => ValueType::VAL_BOOL,
                    AstValue::NIL => ValueType::VAL_NIL,
                    AstValue::INTEGER(_) => ValueType::VAL_INTEGER,
                    AstValue::DOUBLE(_, _, _) => ValueType::VAL_DOUBLE,
                    AstValue::STRING(_) => ValueType::VAL_STRING,
                },
                AstNode::N_BINOP(_) => ValueType::VAL_NIL,
            };
            vtypes.push(t);
            i = i + 1;
        }
        vtypes
    }
}

} // verus!
