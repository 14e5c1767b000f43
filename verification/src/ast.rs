//! The node model: a closed, tagged set of syntax-tree node variants.
//!
//! Every node carries a workspace-unique identity and an optional source
//! locator.  A node that embeds another node refers to it by identity; the
//! registry owns each node exactly once.

use vstd::prelude::*;

verus! {

/// A workspace-unique node identity.
pub type NodeId = u64;

/// A source locator: character offset and length within the owning
/// source unit's raw text.
#[derive(Clone, Copy, PartialEq, Eq, Structural, Debug)]
pub struct SourceSpan {
    pub offset: usize,
    pub length: usize,
}

/// Mutability of a declared variable.
#[derive(Clone, Copy, PartialEq, Eq, Structural, Debug)]
pub enum Mutability {
    Mutable,
    Immutable,
    Constant,
}

/// The closed set of node kinds, used by kind-directed queries.
#[derive(Clone, Copy, PartialEq, Eq, Structural, Debug)]
pub enum NodeType {
    SourceUnit,
    PragmaDirective,
    ContractDefinition,
    FunctionDefinition,
    VariableDeclaration,
    Block,
    ExpressionStatement,
    IfStatement,
    ForStatement,
    WhileStatement,
    Return,
    Assignment,
    BinaryOperation,
    UnaryOperation,
    FunctionCall,
    MemberAccess,
    IndexAccess,
    Identifier,
    Literal,
}

/// Kind-specific data of a node.  Sub-nodes are referenced by identity;
/// the referenced node is owned by the registry, never embedded.
pub enum NodeBody {
    /// One source file's top-level container, optionally carrying its raw
    /// source text for diagnostics.
    SourceUnit { absolute_path: String, source: Option<String>, members: Vec<NodeId> },
    /// A compiler-version declaration, e.g. `pragma solidity ^0.8.20;`
    /// tokenized into literals such as `["solidity", "^", "0.8.20"]`.
    PragmaDirective { literals: Vec<String> },
    ContractDefinition { name: String, members: Vec<NodeId> },
    FunctionDefinition { name: String, parameters: Vec<NodeId>, body: Vec<NodeId> },
    VariableDeclaration {
        name: String,
        constant: bool,
        state_variable: bool,
        mutability: Option<Mutability>,
        type_string: Option<String>,
    },
    Block { statements: Vec<NodeId> },
    ExpressionStatement { expression: NodeId },
    IfStatement { condition: NodeId, true_body: NodeId, false_body: Option<NodeId> },
    ForStatement {
        initialization: Option<NodeId>,
        condition: Option<NodeId>,
        loop_expression: Option<NodeId>,
        body: NodeId,
    },
    WhileStatement { condition: NodeId, body: NodeId },
    Return { expression: Option<NodeId> },
    Assignment { operator: String, left_hand_side: NodeId, right_hand_side: NodeId },
    BinaryOperation { operator: String, left_expression: NodeId, right_expression: NodeId },
    UnaryOperation { operator: String, sub_expression: NodeId },
    FunctionCall { expression: NodeId, arguments: Vec<NodeId> },
    MemberAccess { member_name: String, expression: NodeId, referenced_declaration: Option<NodeId> },
    IndexAccess { base_expression: NodeId, index_expression: Option<NodeId> },
    Identifier { name: String, referenced_declaration: NodeId },
    Literal { value: String },
}

/// A registered node: identity, optional locator, kind-specific body.
pub struct Node {
    pub id: NodeId,
    pub span: Option<SourceSpan>,
    pub body: NodeBody,
}

/// A node of the raw ingestion payload, whose identity may still be
/// missing; ingestion rejects such payloads.
pub struct RawNode {
    pub id: Option<NodeId>,
    pub span: Option<SourceSpan>,
    pub body: NodeBody,
}

/// The raw parsed-AST payload accepted once at load time.
pub struct AstPayload {
    pub nodes: Vec<RawNode>,
}

impl NodeBody {
    /// The kind tag of this body.
    pub open spec fn spec_node_type(&self) -> NodeType {
        match self {
            NodeBody::SourceUnit { .. } => NodeType::SourceUnit,
            NodeBody::PragmaDirective { .. } => NodeType::PragmaDirective,
            NodeBody::ContractDefinition { .. } => NodeType::ContractDefinition,
            NodeBody::FunctionDefinition { .. } => NodeType::FunctionDefinition,
            NodeBody::VariableDeclaration { .. } => NodeType::VariableDeclaration,
            NodeBody::Block { .. } => NodeType::Block,
            NodeBody::ExpressionStatement { .. } => NodeType::ExpressionStatement,
            NodeBody::IfStatement { .. } => NodeType::IfStatement,
            NodeBody::ForStatement { .. } => NodeType::ForStatement,
            NodeBody::WhileStatement { .. } => NodeType::WhileStatement,
            NodeBody::Return { .. } => NodeType::Return,
            NodeBody::Assignment { .. } => NodeType::Assignment,
            NodeBody::BinaryOperation { .. } => NodeType::BinaryOperation,
            NodeBody::UnaryOperation { .. } => NodeType::UnaryOperation,
            NodeBody::FunctionCall { .. } => NodeType::FunctionCall,
            NodeBody::MemberAccess { .. } => NodeType::MemberAccess,
            NodeBody::IndexAccess { .. } => NodeType::IndexAccess,
            NodeBody::Identifier { .. } => NodeType::Identifier,
            NodeBody::Literal { .. } => NodeType::Literal,
        }
    }

    /// The kind tag of this body.
    pub fn node_type(&self) -> (t: NodeType)
        ensures
            t == self.spec_node_type(),
    {
        match self {
            NodeBody::SourceUnit { .. } => NodeType::SourceUnit,
            NodeBody::PragmaDirective { .. } => NodeType::PragmaDirective,
            NodeBody::ContractDefinition { .. } => NodeType::ContractDefinition,
            NodeBody::FunctionDefinition { .. } => NodeType::FunctionDefinition,
            NodeBody::VariableDeclaration { .. } => NodeType::VariableDeclaration,
            NodeBody::Block { .. } => NodeType::Block,
            NodeBody::ExpressionStatement { .. } => NodeType::ExpressionStatement,
            NodeBody::IfStatement { .. } => NodeType::IfStatement,
            NodeBody::ForStatement { .. } => NodeType::ForStatement,
            NodeBody::WhileStatement { .. } => NodeType::WhileStatement,
            NodeBody::Return { .. } => NodeType::Return,
            NodeBody::Assignment { .. } => NodeType::Assignment,
            NodeBody::BinaryOperation { .. } => NodeType::BinaryOperation,
            NodeBody::UnaryOperation { .. } => NodeType::UnaryOperation,
            NodeBody::FunctionCall { .. } => NodeType::FunctionCall,
            NodeBody::MemberAccess { .. } => NodeType::MemberAccess,
            NodeBody::IndexAccess { .. } => NodeType::IndexAccess,
            NodeBody::Identifier { .. } => NodeType::Identifier,
            NodeBody::Literal { .. } => NodeType::Literal,
        }
    }

    /// The identities of the owned sub-nodes, in declaration order.
    /// This is the single place that knows every node kind's shape; all
    /// traversals dispatch through it.
    pub open spec fn spec_children(&self) -> Seq<NodeId> {
        match self {
            NodeBody::SourceUnit { members, .. } => members@,
            NodeBody::PragmaDirective { .. } => Seq::empty(),
            NodeBody::ContractDefinition { members, .. } => members@,
            NodeBody::FunctionDefinition { parameters, body, .. } => parameters@ + body@,
            NodeBody::VariableDeclaration { .. } => Seq::empty(),
            NodeBody::Block { statements } => statements@,
            NodeBody::ExpressionStatement { expression } => seq![*expression],
            NodeBody::IfStatement { condition, true_body, false_body } => seq![*condition, *true_body]
                + opt_seq(*false_body),
            NodeBody::ForStatement { initialization, condition, loop_expression, body } => opt_seq(
                *initialization,
            ) + opt_seq(*condition) + opt_seq(*loop_expression) + seq![*body],
            NodeBody::WhileStatement { condition, body } => seq![*condition, *body],
            NodeBody::Return { expression } => opt_seq(*expression),
            NodeBody::Assignment { left_hand_side, right_hand_side, .. } => seq![
                *left_hand_side,
                *right_hand_side,
            ],
            NodeBody::BinaryOperation { left_expression, right_expression, .. } => seq![
                *left_expression,
                *right_expression,
            ],
            NodeBody::UnaryOperation { sub_expression, .. } => seq![*sub_expression],
            NodeBody::FunctionCall { expression, arguments } => seq![*expression] + arguments@,
            NodeBody::MemberAccess { expression, .. } => seq![*expression],
            NodeBody::IndexAccess { base_expression, index_expression } => seq![*base_expression]
                + opt_seq(*index_expression),
            NodeBody::Identifier { .. } => Seq::empty(),
            NodeBody::Literal { .. } => Seq::empty(),
        }
    }

    /// The identities of the owned sub-nodes, in declaration order.
    pub fn children(&self) -> (r: Vec<NodeId>)
        ensures
            r@ == self.spec_children(),
    {
        let mut r: Vec<NodeId> = Vec::new();
        match self {
            NodeBody::SourceUnit { members, .. } => {
                push_all(&mut r, members);
            },
            NodeBody::PragmaDirective { .. } => {},
            NodeBody::ContractDefinition { members, .. } => {
                push_all(&mut r, members);
            },
            NodeBody::FunctionDefinition { parameters, body, .. } => {
                push_all(&mut r, parameters);
                push_all(&mut r, body);
            },
            NodeBody::VariableDeclaration { .. } => {},
            NodeBody::Block { statements } => {
                push_all(&mut r, statements);
            },
            NodeBody::ExpressionStatement { expression } => {
                r.push(*expression);
            },
            NodeBody::IfStatement { condition, true_body, false_body } => {
                r.push(*condition);
                r.push(*true_body);
                push_opt(&mut r, false_body);
            },
            NodeBody::ForStatement { initialization, condition, loop_expression, body } => {
                push_opt(&mut r, initialization);
                push_opt(&mut r, condition);
                push_opt(&mut r, loop_expression);
                r.push(*body);
            },
            NodeBody::WhileStatement { condition, body } => {
                r.push(*condition);
                r.push(*body);
            },
            NodeBody::Return { expression } => {
                push_opt(&mut r, expression);
            },
            NodeBody::Assignment { left_hand_side, right_hand_side, .. } => {
                r.push(*left_hand_side);
                r.push(*right_hand_side);
            },
            NodeBody::BinaryOperation { left_expression, right_expression, .. } => {
                r.push(*left_expression);
                r.push(*right_expression);
            },
            NodeBody::UnaryOperation { sub_expression, .. } => {
                r.push(*sub_expression);
            },
            NodeBody::FunctionCall { expression, arguments } => {
                r.push(*expression);
                push_all(&mut r, arguments);
            },
            NodeBody::MemberAccess { expression, .. } => {
                r.push(*expression);
            },
            NodeBody::IndexAccess { base_expression, index_expression } => {
                r.push(*base_expression);
                push_opt(&mut r, index_expression);
            },
            NodeBody::Identifier { .. } => {},
            NodeBody::Literal { .. } => {},
        }
        assert(r@ =~= self.spec_children());
        r
    }
}

/// The sequence held by an optional child reference: empty for `None`.
pub open spec fn opt_seq(o: Option<NodeId>) -> Seq<NodeId> {
    match o {
        Some(id) => seq![id],
        None => Seq::empty(),
    }
}

fn push_all(r: &mut Vec<NodeId>, ids: &Vec<NodeId>)
    ensures
        final(r)@ == old(r)@ + ids@,
{
    let mut i: usize = 0;
    while i < ids.len()
        invariant
            i <= ids.len(),
            r@ == old(r)@ + ids@.subrange(0, i as int),
        decreases ids.len() - i,
    {
        r.push(ids[i]);
        i = i + 1;
        assert(r@ =~= old(r)@ + ids@.subrange(0, i as int));
    }
    assert(r@ =~= old(r)@ + ids@);
}

fn push_opt(r: &mut Vec<NodeId>, o: &Option<NodeId>)
    ensures
        final(r)@ == old(r)@ + opt_seq(*o),
{
    match o {
        Some(id) => {
            r.push(*id);
            assert(r@ =~= old(r)@ + opt_seq(*o));
        },
        None => {
            assert(r@ =~= old(r)@ + opt_seq(*o));
        },
    }
}

impl Node {
    /// The kind tag of this node.
    pub open spec fn spec_node_type(&self) -> NodeType {
        self.body.spec_node_type()
    }

    /// The kind tag of this node.
    pub fn node_type(&self) -> (t: NodeType)
        ensures
            t == self.spec_node_type(),
    {
        self.body.node_type()
    }
}

} // verus!
