//! Expression trees.

use vstd::prelude::*;

verus! {

/// An expression tree, built bottom-up.
#[derive(Debug)]
pub enum Expression {
    /// An operator applied to one operand.
    Unary(UnaryExpression),
    /// An operator applied to two operands.
    Binary(BinaryExpression),
    /// A truth value.
    Boolean(bool),
}

/// An operator and its one operand.
#[derive(Debug)]
pub struct UnaryExpression {
    /// The operator of the unary expression
    pub operator: Operator,
    /// The base of the unary expression
    pub base: Box<Expression>,
}

/// An operator and its two operands.
#[derive(Debug)]
pub struct BinaryExpression {
    /// The operator of the binary expression
    pub operator: Operator,
    /// Left hand side of the binary expression
    pub lhs: Box<Expression>,
    /// Right hand side of the binary expression
    pub rhs: Box<Expression>,
}

/// The operators of expression trees.
#[derive(Copy, Clone, Debug, PartialEq, Eq, Structural)]
pub enum Operator {
    /// `+`
    Add,
    /// `+=`
    AddAssign,
    /// `-`
    Sub,
    /// `-=`
    SubAssign,
    /// `*`
    Mul,
    /// `*=`
    MulAssign,
    /// `==`
    Equal,
    /// `!=`
    NotEqual,
    /// `<`
    Less,
    /// `<=`
    LessEqual,
    /// `>`
    Greater,
    /// `>=`
    GreaterEqual,
    /// `&&`
    And,
    /// `||`
    Or,
    /// the "has" relation between a holder and what it holds
    Has,
    /// logical negation, written before its operand
    Not,
    /// the percent mark, written after its operand
    Percent,
}

/// A copy of a tree.
fn copy_tree(tree: &Expression) -> (copy: Expression)
    ensures
        copy == *tree,
    decreases *tree,
{
    match tree {
        Expression::Unary(unary) => Expression::Unary(
            UnaryExpression { operator: unary.operator, base: Box::new(copy_tree(&*unary.base)) },
        ),
        Expression::Binary(binary) => Expression::Binary(
            BinaryExpression {
                operator: binary.operator,
                lhs: Box::new(copy_tree(&*binary.lhs)),
                rhs: Box::new(copy_tree(&*binary.rhs)),
            },
        ),
        Expression::Boolean(value) => Expression::Boolean(*value),
    }
}

impl Clone for Expression {
    fn clone(&self) -> (copy: Self)
        ensures
            copy == *self,
    {
        copy_tree(self)
    }
}

impl Clone for UnaryExpression {
    fn clone(&self) -> (copy: Self)
        ensures
            copy == *self,
    {
        UnaryExpression { operator: self.operator, base: Box::new(copy_tree(&*self.base)) }
    }
}

impl Clone for BinaryExpression {
    fn clone(&self) -> (copy: Self)
        ensures
            copy == *self,
    {
        BinaryExpression {
            operator: self.operator,
            lhs: Box::new(copy_tree(&*self.lhs)),
            rhs: Box::new(copy_tree(&*self.rhs)),
        }
    }
}

impl Expression {
    /// The tree of a prefix operator applied to `base`.
    pub fn prefix(operator: Operator, base: Expression) -> (tree: Self)
        ensures
            tree == Expression::Unary(UnaryExpression { operator, base: Box::new(base) }),
    {
        Self::Unary(UnaryExpression { operator, base: Box::new(base) })
    }

    /// The tree of an infix operator applied to `lhs` and `rhs`.
    pub fn infix(lhs: Expression, operator: Operator, rhs: Expression) -> (tree: Self)
        ensures
            tree == Expression::Binary(
                BinaryExpression { operator, lhs: Box::new(lhs), rhs: Box::new(rhs) },
            ),
    {
        Self::Binary(BinaryExpression { operator, lhs: Box::new(lhs), rhs: Box::new(rhs) })
    }

    /// The tree of a suffix operator applied to `base`.
    pub fn suffix(base: Expression, operator: Operator) -> (tree: Self)
        ensures
            tree == Expression::Unary(UnaryExpression { operator, base: Box::new(base) }),
    {
        Self::Unary(UnaryExpression { operator, base: Box::new(base) })
    }
}

} // verus!
