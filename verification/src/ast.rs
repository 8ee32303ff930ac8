//! The tree that the parser builds, and its mathematical model.

use crate::token::{Location, Operator};
use vstd::prelude::*;

verus! {

/// One node of the tree, per grammar production. Every node owns its
/// children and carries the byte range of the whole construct.
#[derive(Debug, PartialEq, Eq)]
#[allow(inconsistent_fields)]
pub enum Expression {
    Ident { name: String, location: Location },
    IntLiteral { value: i64, size: u8, location: Location },
    UintLiteral { value: u64, size: u8, location: Location },
    /// A floating-point literal, held by its IEEE-754 bits.
    FloatLiteral { bits: u64, size: u8, location: Location },
    Bool { value: bool, location: Location },
    Block { expressions: Vec<Expression>, location: Location },
    Var {
        mutable: bool,
        typ: Option<Box<Expression>>,
        name: String,
        value: Box<Expression>,
        location: Location,
    },
    Assign { ident: Box<Expression>, value: Box<Expression>, location: Location },
    If {
        condition: Box<Expression>,
        truthy: Box<Expression>,
        falsy: Vec<Expression>,
        location: Location,
    },
    BinaryOp { lhs: Box<Expression>, operator: Operator, rhs: Box<Expression>, location: Location },
    FunCall { ident: Box<Expression>, arguments: Vec<Expression>, location: Location },
    Return { value: Box<Expression>, location: Location },
}

/// The model of an [`Expression`]: the same tree over sequences.
#[allow(inconsistent_fields)]
pub enum Ast {
    Ident { name: Seq<char>, location: Location },
    IntLiteral { value: i64, size: u8, location: Location },
    UintLiteral { value: u64, size: u8, location: Location },
    FloatLiteral { bits: u64, size: u8, location: Location },
    Bool { value: bool, location: Location },
    Block { expressions: Seq<Ast>, location: Location },
    Var { mutable: bool, typ: Option<Box<Ast>>, name: Seq<char>, value: Box<Ast>, location: Location },
    Assign { ident: Box<Ast>, value: Box<Ast>, location: Location },
    If { condition: Box<Ast>, truthy: Box<Ast>, falsy: Seq<Ast>, location: Location },
    BinaryOp { lhs: Box<Ast>, operator: Operator, rhs: Box<Ast>, location: Location },
    FunCall { ident: Box<Ast>, arguments: Seq<Ast>, location: Location },
    Return { value: Box<Ast>, location: Location },
}

impl Ast {
    /// The byte range of the node.
    pub open spec fn location(self) -> Location {
        match self {
            Ast::Ident { location, .. } => location,
            Ast::IntLiteral { location, .. } => location,
            Ast::UintLiteral { location, .. } => location,
            Ast::FloatLiteral { location, .. } => location,
            Ast::Bool { location, .. } => location,
            Ast::Block { location, .. } => location,
            Ast::Var { location, .. } => location,
            Ast::Assign { location, .. } => location,
            Ast::If { location, .. } => location,
            Ast::BinaryOp { location, .. } => location,
            Ast::FunCall { location, .. } => location,
            Ast::Return { location, .. } => location,
        }
    }

    /// No node of the tree ends behind `limit`, and none starts behind its
    /// end.
    pub open spec fn within(self, limit: usize) -> bool
        decreases self,
    {
        &&& self.location().start <= self.location().end <= limit
        &&& match self {
            Ast::Block { expressions, .. } => forall|i: int|
                0 <= i < expressions.len() ==> (#[trigger] expressions[i]).within(limit),
            Ast::Var { typ, value, .. } => value.within(limit) && match typ {
                Some(t) => t.within(limit),
                None => true,
            },
            Ast::Assign { ident, value, .. } => ident.within(limit) && value.within(limit),
            Ast::If { condition, truthy, falsy, .. } => {
                &&& condition.within(limit)
                &&& truthy.within(limit)
                &&& forall|i: int| 0 <= i < falsy.len() ==> (#[trigger] falsy[i]).within(limit)
            },
            Ast::BinaryOp { lhs, rhs, .. } => lhs.within(limit) && rhs.within(limit),
            Ast::FunCall { ident, arguments, .. } => {
                &&& ident.within(limit)
                &&& forall|i: int| 0 <= i < arguments.len() ==> (#[trigger] arguments[i]).within(limit)
            },
            Ast::Return { value, .. } => value.within(limit),
            _ => true,
        }
    }

    /// Every node's range is valid, and contains the range of each of its
    /// children.
    pub open spec fn well_formed(self) -> bool
        decreases self,
    {
        &&& self.location().valid()
        &&& match self {
            Ast::Block { expressions, location } => forall|i: int|
                0 <= i < expressions.len() ==> location.contains(
                    (#[trigger] expressions[i]).location(),
                ) && expressions[i].well_formed(),
            Ast::Var { typ, value, location, .. } => {
                &&& value.well_formed()
                &&& location.contains(value.location())
                &&& match typ {
                    Some(t) => t.well_formed() && location.contains(t.location()),
                    None => true,
                }
            },
            Ast::Assign { ident, value, location } => {
                &&& ident.well_formed()
                &&& location.contains(ident.location())
                &&& value.well_formed()
                &&& location.contains(value.location())
            },
            Ast::If { condition, truthy, falsy, location } => {
                &&& condition.well_formed()
                &&& location.contains(condition.location())
                &&& truthy.well_formed()
                &&& location.contains(truthy.location())
                &&& forall|i: int|
                    0 <= i < falsy.len() ==> location.contains((#[trigger] falsy[i]).location())
                        && falsy[i].well_formed()
            },
            Ast::BinaryOp { lhs, rhs, location, .. } => {
                &&& lhs.well_formed()
                &&& location.contains(lhs.location())
                &&& rhs.well_formed()
                &&& location.contains(rhs.location())
            },
            Ast::FunCall { ident, arguments, location } => {
                &&& ident.well_formed()
                &&& location.contains(ident.location())
                &&& forall|i: int|
                    0 <= i < arguments.len() ==> location.contains(
                        (#[trigger] arguments[i]).location(),
                    ) && arguments[i].well_formed()
            },
            Ast::Return { value, location } => value.well_formed() && location.contains(
                value.location(),
            ),
            _ => true,
        }
    }
}

/// A well-formed node that ends within `limit` holds no node that ends
/// behind it.
pub proof fn lemma_within(node: Ast, limit: usize)
    requires
        node.well_formed(),
        node.location().end <= limit,
    ensures
        node.within(limit),
    decreases node,
{
    match node {
        Ast::Block { expressions, .. } => {
            assert forall|i: int| 0 <= i < expressions.len() implies (#[trigger] expressions[i]).within(
                limit,
            ) by {
                lemma_within(expressions[i], limit);
            }
        },
        Ast::Var { typ, value, .. } => {
            lemma_within(*value, limit);
            match typ {
                Some(t) => {
                    lemma_within(*t, limit);
                },
                None => {},
            }
        },
        Ast::Assign { ident, value, .. } => {
            lemma_within(*ident, limit);
            lemma_within(*value, limit);
        },
        Ast::If { condition, truthy, falsy, .. } => {
            lemma_within(*condition, limit);
            lemma_within(*truthy, limit);
            assert forall|i: int| 0 <= i < falsy.len() implies (#[trigger] falsy[i]).within(limit) by {
                lemma_within(falsy[i], limit);
            }
        },
        Ast::BinaryOp { lhs, rhs, .. } => {
            lemma_within(*lhs, limit);
            lemma_within(*rhs, limit);
        },
        Ast::FunCall { ident, arguments, .. } => {
            lemma_within(*ident, limit);
            assert forall|i: int| 0 <= i < arguments.len() implies (#[trigger] arguments[i]).within(
                limit,
            ) by {
                lemma_within(arguments[i], limit);
            }
        },
        Ast::Return { value, .. } => {
            lemma_within(*value, limit);
        },
        _ => {},
    }
}

/// The models of a sequence of nodes.
pub open spec fn models(nodes: Seq<Expression>) -> Seq<Ast>
    decreases nodes, 0nat,
{
    Seq::new(
        nodes.len(),
        |i: int|
            if 0 <= i < nodes.len() {
                nodes[i].model()
            } else {
                arbitrary()
            },
    )
}

impl Expression {
    /// The model of this node.
    pub open spec fn model(&self) -> Ast
        decreases self, 1nat,
    {
        match self {
            Expression::Ident { name, location } => Ast::Ident { name: name@, location: *location },
            Expression::IntLiteral { value, size, location } => Ast::IntLiteral {
                value: *value,
                size: *size,
                location: *location,
            },
            Expression::UintLiteral { value, size, location } => Ast::UintLiteral {
                value: *value,
                size: *size,
                location: *location,
            },
            Expression::FloatLiteral { bits, size, location } => Ast::FloatLiteral {
                bits: *bits,
                size: *size,
                location: *location,
            },
            Expression::Bool { value, location } => Ast::Bool { value: *value, location: *location },
            Expression::Block { expressions, location } => Ast::Block {
                expressions: models(expressions@),
                location: *location,
            },
            Expression::Var { mutable, typ, name, value, location } => Ast::Var {
                mutable: *mutable,
                typ: match typ {
                    Some(t) => Some(Box::new(t.model())),
                    None => None,
                },
                name: name@,
                value: Box::new(value.model()),
                location: *location,
            },
            Expression::Assign { ident, value, location } => Ast::Assign {
                ident: Box::new(ident.model()),
                value: Box::new(value.model()),
                location: *location,
            },
            Expression::If { condition, truthy, falsy, location } => Ast::If {
                condition: Box::new(condition.model()),
                truthy: Box::new(truthy.model()),
                falsy: models(falsy@),
                location: *location,
            },
            Expression::BinaryOp { lhs, operator, rhs, location } => Ast::BinaryOp {
                lhs: Box::new(lhs.model()),
                operator: *operator,
                rhs: Box::new(rhs.model()),
                location: *location,
            },
            Expression::FunCall { ident, arguments, location } => Ast::FunCall {
                ident: Box::new(ident.model()),
                arguments: models(arguments@),
                location: *location,
            },
            Expression::Return { value, location } => Ast::Return {
                value: Box::new(value.model()),
                location: *location,
            },
        }
    }
}

impl View for Expression {
    type V = Ast;

    open spec fn view(&self) -> Ast {
        self.model()
    }
}

impl Expression {
    /// The byte range of the node.
    pub fn location(&self) -> (l: Location)
        ensures
            l == self@.location(),
    {
        match self {
            Expression::Ident { location, .. } => *location,
            Expression::IntLiteral { location, .. } => *location,
            Expression::UintLiteral { location, .. } => *location,
            Expression::FloatLiteral { location, .. } => *location,
            Expression::Bool { location, .. } => *location,
            Expression::Block { location, .. } => *location,
            Expression::Var { location, .. } => *location,
            Expression::Assign { location, .. } => *location,
            Expression::If { location, .. } => *location,
            Expression::BinaryOp { location, .. } => *location,
            Expression::FunCall { location, .. } => *location,
            Expression::Return { location, .. } => *location,
        }
    }
}

/// Appending a node appends its model.
pub proof fn lemma_models_push(nodes: Seq<Expression>, node: Expression)
    ensures
        models(nodes.push(node)) == models(nodes).push(node@),
{
    assert(models(nodes.push(node)) =~= models(nodes).push(node@));
}

} // verus!
