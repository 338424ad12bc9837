//! Statements, as the parser leaves them for the interpreter.
use vstd::prelude::*;
use crate::env::{Kind, SValue, Value};

verus! {

/// A statement. Arithmetic is already evaluated and conditions already
/// decided: an `If` holds the body of a block whose condition held.
#[derive(Debug)]
pub enum ASTNode {
    /// Print `text`; where `is_identifier`, print what the name `text` is bound to.
    Shout { text: Vec<char>, is_identifier: bool },
    Let { declared_type: Kind, name: Vec<char>, value: Value },
    Const { declared_type: Kind, name: Vec<char>, value: Value },
    If { body: Vec<ASTNode> },
}

/// The mathematical form of a statement.
pub enum SNode {
    Shout { text: Seq<char>, is_identifier: bool },
    Let { declared_type: Kind, name: Seq<char>, value: SValue },
    Const { declared_type: Kind, name: Seq<char>, value: SValue },
    If { body: Seq<SNode> },
}

pub open spec fn node_view(n: ASTNode) -> SNode
    decreases n, 1int,
{
    match n {
        ASTNode::Shout { text, is_identifier } => SNode::Shout { text: text@, is_identifier },
        ASTNode::Let { declared_type, name, value } => SNode::Let {
            declared_type,
            name: name@,
            value: value@,
        },
        ASTNode::Const { declared_type, name, value } => SNode::Const {
            declared_type,
            name: name@,
            value: value@,
        },
        ASTNode::If { body } => SNode::If { body: nodes_view(body@) },
    }
}

pub open spec fn nodes_view(ns: Seq<ASTNode>) -> Seq<SNode>
    decreases ns, ns.len(),
{
    if ns.len() == 0 {
        Seq::empty()
    } else {
        nodes_view(ns.drop_last()).push(node_view(ns.last()))
    }
}

impl View for ASTNode {
    type V = SNode;

    open spec fn view(&self) -> SNode {
        node_view(*self)
    }
}

} // verus!
