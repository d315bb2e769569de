//! The expression compiler: from the operands and operators of an
//! expression, as written from left to right, to the expression tree, by
//! precedence climbing over a fixed table.

use crate::errors::{Failure, LifeError, Place};
use crate::syntax::nodes::{
    AtomicNode, BooleanNode, ExpressionNode, InfixNode, PrefixNode, SuffixNode, TermNode,
};
use crate::vm::expressions::{BinaryExpression, Expression, Operator, UnaryExpression};
use vstd::prelude::*;

verus! {

/// One operand or operator of an expression.
#[derive(Debug)]
pub enum Expr {
    /// An operand.
    Term(AtomicNode),
    /// An operator written before its operand.
    Prefix(PrefixNode),
    /// An operator written between its operands.
    Infix(InfixNode),
    /// An operator written after its operand.
    Suffix(SuffixNode),
}

/// The side to which operators of the same precedence group.
#[derive(Copy, Clone, Debug, PartialEq, Eq, Structural)]
pub enum Associativity {
    /// `a + b + c` is `(a + b) + c`.
    Left,
    /// `a += b += c` is `a += (b += c)`.
    Right,
    /// Operators of this precedence do not follow each other.
    Neither,
}

/// What a token is for the climbing: an operand, or an operator with its
/// precedence.
#[derive(Copy, Clone, Debug, PartialEq, Eq, Structural)]
pub enum Affix {
    /// An operand.
    Nilfix,
    /// An infix operator with its precedence and the side it groups to.
    Infix(u32, Associativity),
    /// A prefix operator with its precedence.
    Prefix(u32),
    /// A postfix operator with its precedence.
    Postfix(u32),
}

/// The precedence of postfix operators, which bind tightest.
pub const POSTFIX: u32 = 3000;

/// The precedence of prefix operators.
pub const PREFIX: u32 = 2000;

/// The precedence of `+=` and `-=`.
pub const ASSIGNMENT: u32 = 100;

/// The precedence of `+` and `-`.
pub const ADDITIVE: u32 = 90;

/// The precedence of comparisons, of `&&` and `||`, and of the "has"
/// relation, which bind loosest.
pub const RELATIONAL: u32 = 2;

/// The largest binding power, that of an operand.
pub const STRONGEST: u64 = 0xFFFF_FFFF;

/// The message of the error for an expression without tokens.
pub const EMPTY_INPUT: &'static str = "expected an operand, found the end of the expression";

/// The message of the error for an infix operator where an operand has to
/// stand.
pub const UNEXPECTED_INFIX: &'static str = "expected an operand, found an infix operator";

/// The message of the error for a postfix operator where an operand has to
/// stand.
pub const UNEXPECTED_POSTFIX: &'static str = "expected an operand, found a postfix operator";

/// The message of the error for a token that is asked to be what it is not.
pub const WRONG_KIND: &'static str = "the token is not of the kind asked for";

impl InfixNode {
    /// The operator of expression trees that the infix operator stands for.
    /// Every infix operator has one of its own.
    pub open spec fn spec_operator(&self) -> Operator {
        match self {
            InfixNode::Add => Operator::Add,
            InfixNode::AddAssign => Operator::AddAssign,
            InfixNode::And => Operator::And,
            InfixNode::EQ => Operator::Equal,
            InfixNode::GEQ => Operator::GreaterEqual,
            InfixNode::GT => Operator::Greater,
            InfixNode::Has => Operator::Has,
            InfixNode::LEQ => Operator::LessEqual,
            InfixNode::LT => Operator::Less,
            InfixNode::NE => Operator::NotEqual,
            InfixNode::Or => Operator::Or,
            InfixNode::Sub => Operator::Sub,
            InfixNode::SubAssign => Operator::SubAssign,
        }
    }

    /// The operator of expression trees that the infix operator stands for.
    pub fn operator(&self) -> (operator: Operator)
        ensures
            operator == self.spec_operator(),
    {
        match self {
            InfixNode::Add => Operator::Add,
            InfixNode::AddAssign => Operator::AddAssign,
            InfixNode::And => Operator::And,
            InfixNode::EQ => Operator::Equal,
            InfixNode::GEQ => Operator::GreaterEqual,
            InfixNode::GT => Operator::Greater,
            InfixNode::Has => Operator::Has,
            InfixNode::LEQ => Operator::LessEqual,
            InfixNode::LT => Operator::Less,
            InfixNode::NE => Operator::NotEqual,
            InfixNode::Or => Operator::Or,
            InfixNode::Sub => Operator::Sub,
            InfixNode::SubAssign => Operator::SubAssign,
        }
    }

    /// The precedence of the infix operator and the side it groups to:
    /// `+=` and `-=` bind tightest and group to the right, `+` and `-` come
    /// next and group to the left, and all the others bind loosest, alike,
    /// and group to the left.
    pub open spec fn spec_affix(&self) -> Affix {
        match self {
            InfixNode::AddAssign | InfixNode::SubAssign => Affix::Infix(
                ASSIGNMENT,
                Associativity::Right,
            ),
            InfixNode::Add | InfixNode::Sub => Affix::Infix(ADDITIVE, Associativity::Left),
            _ => Affix::Infix(RELATIONAL, Associativity::Left),
        }
    }
}

/// The syntax error with the message `message` over the byte range of an
/// expression.
pub open spec fn misfit(message: Seq<char>, start: nat, end: nat) -> Failure {
    Failure::Syntax { message, place: Place { file: None, start, end } }
}

impl Expr {
    /// What the token is for the climbing. Postfix operators bind tighter
    /// than prefix operators, and these tighter than any infix operator.
    pub open spec fn spec_query(&self) -> Affix {
        match self {
            Expr::Term(_) => Affix::Nilfix,
            Expr::Prefix(_) => Affix::Prefix(PREFIX),
            Expr::Infix(node) => node.spec_affix(),
            Expr::Suffix(_) => Affix::Postfix(POSTFIX),
        }
    }

    /// What the token is for the climbing.
    pub fn query(&self) -> (affix: Affix)
        ensures
            affix == self.spec_query(),
    {
        match self {
            Expr::Term(_) => Affix::Nilfix,
            Expr::Prefix(_) => Affix::Prefix(PREFIX),
            Expr::Infix(node) => match node {
                InfixNode::AddAssign | InfixNode::SubAssign => Affix::Infix(
                    ASSIGNMENT,
                    Associativity::Right,
                ),
                InfixNode::Add | InfixNode::Sub => Affix::Infix(ADDITIVE, Associativity::Left),
                _ => Affix::Infix(RELATIONAL, Associativity::Left),
            },
            Expr::Suffix(_) => Affix::Postfix(POSTFIX),
        }
    }

    /// The tree of the token as an operand: a truth value stands for
    /// itself, and every other operand for the truth value `true`. A token
    /// that is no operand has no tree.
    pub open spec fn spec_primary(&self) -> Option<Expression> {
        match self {
            Expr::Term(AtomicNode::Boolean(BooleanNode::False)) => Some(Expression::Boolean(false)),
            Expr::Term(_) => Some(Expression::Boolean(true)),
            _ => None,
        }
    }

    /// The tree of the token as an infix operator between `lhs` and `rhs`.
    /// A token that is no infix operator has no tree.
    pub open spec fn spec_infix(&self, lhs: Expression, rhs: Expression) -> Option<Expression> {
        match self {
            Expr::Infix(node) => Some(
                Expression::Binary(
                    BinaryExpression {
                        operator: node.spec_operator(),
                        lhs: Box::new(lhs),
                        rhs: Box::new(rhs),
                    },
                ),
            ),
            _ => None,
        }
    }

    /// The tree of the token as a prefix operator before `rhs`: the
    /// negation of `rhs`. A token that is no prefix operator has no tree.
    pub open spec fn spec_prefix(&self, rhs: Expression) -> Option<Expression> {
        match self {
            Expr::Prefix(_) => Some(
                Expression::Unary(UnaryExpression { operator: Operator::Not, base: Box::new(rhs) }),
            ),
            _ => None,
        }
    }

    /// The tree of the token as a postfix operator after `lhs`: the percent
    /// mark on `lhs`. A token that is no postfix operator has no tree.
    pub open spec fn spec_postfix(&self, lhs: Expression) -> Option<Expression> {
        match self {
            Expr::Suffix(_) => Some(
                Expression::Unary(
                    UnaryExpression { operator: Operator::Percent, base: Box::new(lhs) },
                ),
            ),
            _ => None,
        }
    }

    /// The tree of the token as an operand. A token that is no operand is
    /// refused with a runtime error.
    pub fn primary(&self) -> (res: Result<Expression, LifeError>)
        ensures
            match self.spec_primary() {
                Some(tree) => res == Ok::<Expression, LifeError>(tree),
                None => res matches Err(error) && error.is_runtime(WRONG_KIND@),
            },
    {
        match self {
            Expr::Term(node) => match node {
                AtomicNode::Boolean(BooleanNode::False) => Ok(Expression::Boolean(false)),
                _ => Ok(Expression::Boolean(true)),
            },
            _ => Err(LifeError::runtime(WRONG_KIND)),
        }
    }

    /// The tree of the token as an infix operator between `lhs` and `rhs`.
    /// A token that is no infix operator is refused with a runtime error.
    pub fn infix(&self, lhs: Expression, rhs: Expression) -> (res: Result<Expression, LifeError>)
        ensures
            match self.spec_infix(lhs, rhs) {
                Some(tree) => res == Ok::<Expression, LifeError>(tree),
                None => res matches Err(error) && error.is_runtime(WRONG_KIND@),
            },
    {
        match self {
            Expr::Infix(node) => Ok(Expression::infix(lhs, node.operator(), rhs)),
            _ => Err(LifeError::runtime(WRONG_KIND)),
        }
    }

    /// The tree of the token as a prefix operator before `rhs`. A token
    /// that is no prefix operator is refused with a runtime error.
    pub fn prefix(&self, rhs: Expression) -> (res: Result<Expression, LifeError>)
        ensures
            match self.spec_prefix(rhs) {
                Some(tree) => res == Ok::<Expression, LifeError>(tree),
                None => res matches Err(error) && error.is_runtime(WRONG_KIND@),
            },
    {
        match self {
            Expr::Prefix(_) => Ok(Expression::prefix(Operator::Not, rhs)),
            _ => Err(LifeError::runtime(WRONG_KIND)),
        }
    }

    /// The tree of the token as a postfix operator after `lhs`. A token
    /// that is no postfix operator is refused with a runtime error.
    pub fn postfix(&self, lhs: Expression) -> (res: Result<Expression, LifeError>)
        ensures
            match self.spec_postfix(lhs) {
                Some(tree) => res == Ok::<Expression, LifeError>(tree),
                None => res matches Err(error) && error.is_runtime(WRONG_KIND@),
            },
    {
        match self {
            Expr::Suffix(_) => Ok(Expression::suffix(lhs, Operator::Percent)),
            _ => Err(LifeError::runtime(WRONG_KIND)),
        }
    }
}

impl Affix {
    /// The power with which the token binds what stands to its left: none
    /// for an operand and a prefix operator, ten times the precedence for
    /// the others.
    pub open spec fn left_power(self) -> int {
        match self {
            Affix::Nilfix => 0,
            Affix::Prefix(_) => 0,
            Affix::Postfix(precedence) => precedence * 10,
            Affix::Infix(precedence, _) => precedence * 10,
        }
    }

    /// The power below which the next operator at the same level has to
    /// bind: one above its own power after an infix operator that groups to
    /// a side, its own power after one that does not, and no limit after
    /// anything else.
    pub open spec fn next_power(self) -> int {
        match self {
            Affix::Infix(precedence, Associativity::Neither) => precedence * 10,
            Affix::Infix(precedence, _) => precedence * 10 + 1,
            _ => STRONGEST as int,
        }
    }

    /// The power above which the operators of the right operand have to
    /// bind.
    pub open spec fn right_power(self) -> int {
        match self {
            Affix::Prefix(precedence) => precedence * 10 - 1,
            Affix::Infix(precedence, Associativity::Left) => precedence * 10,
            Affix::Infix(precedence, Associativity::Right) => precedence * 10 - 1,
            Affix::Infix(precedence, Associativity::Neither) => precedence * 10 + 1,
            _ => 0,
        }
    }

    /// True when the precedence of an operator is not zero, so that there is
    /// a power below its own.
    pub open spec fn tame(self) -> bool {
        match self {
            Affix::Nilfix => true,
            Affix::Prefix(precedence) => precedence >= 1,
            Affix::Postfix(precedence) => precedence >= 1,
            Affix::Infix(precedence, _) => precedence >= 1,
        }
    }

    /// The power with which the token binds what stands to its left.
    pub fn left(self) -> (power: u64)
        ensures
            power == self.left_power(),
    {
        match self {
            Affix::Nilfix => 0,
            Affix::Prefix(_) => 0,
            Affix::Postfix(precedence) => precedence as u64 * 10,
            Affix::Infix(precedence, _) => precedence as u64 * 10,
        }
    }

    /// The power below which the next operator at the same level has to
    /// bind.
    pub fn next(self) -> (power: u64)
        ensures
            power == self.next_power(),
    {
        match self {
            Affix::Infix(precedence, Associativity::Neither) => precedence as u64 * 10,
            Affix::Infix(precedence, _) => precedence as u64 * 10 + 1,
            _ => STRONGEST,
        }
    }

    /// The power above which the operators of the right operand have to
    /// bind.
    pub fn right(self) -> (power: u64)
        requires
            self.tame(),
        ensures
            power == self.right_power(),
    {
        match self {
            Affix::Prefix(precedence) => precedence as u64 * 10 - 1,
            Affix::Infix(precedence, Associativity::Left) => precedence as u64 * 10,
            Affix::Infix(precedence, Associativity::Right) => precedence as u64 * 10 - 1,
            Affix::Infix(precedence, Associativity::Neither) => precedence as u64 * 10 + 1,
            _ => 0,
        }
    }
}

/// What climbing gave: the tree or the failure, and the index of the first
/// token that was not used.
pub ghost struct Climbed {
    pub tree: Result<Expression, Failure>,
    pub next: int,
}

/// The tree of the operand that starts at index `at`, with every operator
/// after it that binds with more than `power`. The span is that of the
/// whole expression, for the errors.
pub open spec fn climb(tokens: Seq<Expr>, at: int, power: int, start: nat, end: nat) -> Climbed
    decreases tokens.len() - at, 1nat,
{
    if at < 0 || at >= tokens.len() {
        Climbed { tree: Err(misfit(EMPTY_INPUT@, start, end)), next: at }
    } else {
        let head = tokens[at];
        let affix = head.spec_query();
        let first = match affix {
            Affix::Nilfix => Climbed { tree: Ok(head.spec_primary()->0), next: at + 1 },
            Affix::Prefix(_) => {
                let operand = climb(tokens, at + 1, affix.right_power(), start, end);
                match operand.tree {
                    Ok(rhs) => Climbed { tree: Ok(head.spec_prefix(rhs)->0), next: operand.next },
                    Err(failure) => operand,
                }
            },
            Affix::Postfix(_) => Climbed {
                tree: Err(misfit(UNEXPECTED_POSTFIX@, start, end)),
                next: at + 1,
            },
            Affix::Infix(_, _) => Climbed {
                tree: Err(misfit(UNEXPECTED_INFIX@, start, end)),
                next: at + 1,
            },
        };
        match first.tree {
            Ok(tree) => if at < first.next <= tokens.len() {
                climb_on(tokens, first.next, power, affix.next_power(), tree, start, end)
            } else {
                first
            },
            Err(failure) => first,
        }
    }
}

/// The tree `lhs`, which ends before index `at`, with every operator from
/// `at` on that binds with more than `power` and with less than `limit`.
pub open spec fn climb_on(
    tokens: Seq<Expr>,
    at: int,
    power: int,
    limit: int,
    lhs: Expression,
    start: nat,
    end: nat,
) -> Climbed
    decreases tokens.len() - at, 0nat,
{
    if at < 0 || at >= tokens.len() {
        Climbed { tree: Ok(lhs), next: at }
    } else {
        let head = tokens[at];
        let affix = head.spec_query();
        if power < affix.left_power() && affix.left_power() < limit {
            match affix {
                Affix::Infix(_, _) => {
                    let operand = climb(tokens, at + 1, affix.right_power(), start, end);
                    match operand.tree {
                        Ok(rhs) => if at < operand.next <= tokens.len() {
                            climb_on(
                                tokens,
                                operand.next,
                                power,
                                affix.next_power(),
                                head.spec_infix(lhs, rhs)->0,
                                start,
                                end,
                            )
                        } else {
                            operand
                        },
                        Err(failure) => operand,
                    }
                },
                Affix::Postfix(_) => climb_on(
                    tokens,
                    at + 1,
                    power,
                    affix.next_power(),
                    head.spec_postfix(lhs)->0,
                    start,
                    end,
                ),
                _ => Climbed { tree: Ok(lhs), next: at },
            }
        } else {
            Climbed { tree: Ok(lhs), next: at }
        }
    }
}

/// What climbing gave.
pub struct Climb {
    /// The tree, or the error.
    pub tree: Result<Expression, LifeError>,
    /// The index of the first token that was not used.
    pub next: usize,
}

impl View for Climb {
    type V = Climbed;

    open spec fn view(&self) -> Climbed {
        Climbed {
            tree: match self.tree {
                Ok(tree) => Ok(tree),
                Err(error) => Err(error@),
            },
            next: self.next as int,
        }
    }
}

/// Build the tree of the operand that starts at index `at`, with every
/// operator after it that binds with more than `power`.
pub fn climb_from(tokens: &Vec<Expr>, at: usize, power: u64, start: usize, end: usize) -> (done:
    Climb)
    requires
        at <= tokens@.len(),
    ensures
        done@ == climb(tokens@, at as int, power as int, start as nat, end as nat),
        at <= done.next <= tokens@.len(),
        done.tree is Ok ==> at < done.next,
    decreases tokens@.len() - at, 1nat,
{
    if at >= tokens.len() {
        return Climb { tree: Err(LifeError::syntax(EMPTY_INPUT, start, end)), next: at };
    }
    let head = &tokens[at];
    let affix = head.query();
    let first = match affix {
        Affix::Nilfix => Climb { tree: head.primary(), next: at + 1 },
        Affix::Prefix(_) => {
            let operand = climb_from(tokens, at + 1, affix.right(), start, end);
            match operand.tree {
                Ok(rhs) => Climb { tree: head.prefix(rhs), next: operand.next },
                Err(error) => Climb { tree: Err(error), next: operand.next },
            }
        },
        Affix::Postfix(_) => Climb {
            tree: Err(LifeError::syntax(UNEXPECTED_POSTFIX, start, end)),
            next: at + 1,
        },
        Affix::Infix(_, _) => Climb {
            tree: Err(LifeError::syntax(UNEXPECTED_INFIX, start, end)),
            next: at + 1,
        },
    };
    match first.tree {
        Ok(tree) => climb_further(tokens, first.next, power, affix.next(), tree, start, end),
        Err(error) => Climb { tree: Err(error), next: first.next },
    }
}

/// Extend the tree `lhs`, which ends before index `at`, with every operator
/// from `at` on that binds with more than `power` and with less than
/// `limit`.
#[verifier::loop_isolation(false)]
pub fn climb_further(
    tokens: &Vec<Expr>,
    at: usize,
    power: u64,
    limit: u64,
    lhs: Expression,
    start: usize,
    end: usize,
) -> (done: Climb)
    requires
        at <= tokens@.len(),
    ensures
        done@ == climb_on(
            tokens@,
            at as int,
            power as int,
            limit as int,
            lhs,
            start as nat,
            end as nat,
        ),
        at <= done.next <= tokens@.len(),
    decreases tokens@.len() - at, 0nat,
{
    let mut here = at;
    let mut bound = limit;
    let mut tree = lhs;
    loop
        invariant
            at <= here <= tokens@.len(),
            climb_on(
                tokens@,
                at as int,
                power as int,
                limit as int,
                lhs,
                start as nat,
                end as nat,
            ) == climb_on(
                tokens@,
                here as int,
                power as int,
                bound as int,
                tree,
                start as nat,
                end as nat,
            ),
        decreases tokens@.len() - here,
    {
        if here >= tokens.len() {
            return Climb { tree: Ok(tree), next: here };
        }
        let head = &tokens[here];
        let affix = head.query();
        let left = affix.left();
        if !(power < left && left < bound) {
            return Climb { tree: Ok(tree), next: here };
        }
        match affix {
            Affix::Infix(_, _) => {
                let operand = climb_from(tokens, here + 1, affix.right(), start, end);
                match operand.tree {
                    Ok(rhs) => {
                        match head.infix(tree, rhs) {
                            Ok(joined) => {
                                tree = joined;
                            },
                            Err(error) => {
                                return Climb { tree: Err(error), next: operand.next };
                            },
                        }
                        here = operand.next;
                        bound = affix.next();
                    },
                    Err(error) => {
                        return Climb { tree: Err(error), next: operand.next };
                    },
                }
            },
            Affix::Postfix(_) => {
                match head.postfix(tree) {
                    Ok(wrapped) => {
                        tree = wrapped;
                    },
                    Err(error) => {
                        return Climb { tree: Err(error), next: here };
                    },
                }
                here = here + 1;
                bound = affix.next();
            },
            _ => {
                return Climb { tree: Ok(tree), next: here };
            },
        }
    }
}

/// The tokens of a term, as written: its prefix operators, its operand and
/// its suffix operators.
pub open spec fn term_tokens(term: TermNode) -> Seq<Expr> {
    Seq::new(term.prefix@.len(), |at: int| Expr::Prefix(term.prefix@[at])) + seq![
        Expr::Term(term.atomic),
    ] + Seq::new(term.suffix@.len(), |at: int| Expr::Suffix(term.suffix@[at]))
}

/// The tokens of the first `upto` terms of an expression, each followed by
/// the infix operator that stands after it, if there is one.
pub open spec fn tokens_of(terms: Seq<TermNode>, infixes: Seq<InfixNode>, upto: int) -> Seq<Expr>
    decreases upto,
{
    if upto <= 0 {
        Seq::empty()
    } else {
        let before = tokens_of(terms, infixes, upto - 1) + term_tokens(terms[upto - 1]);
        if upto - 1 < infixes.len() {
            before.push(Expr::Infix(infixes[upto - 1]))
        } else {
            before
        }
    }
}

impl ExpressionNode {
    /// The tokens of the expression, as written from left to right.
    pub open spec fn spec_tokens(&self) -> Seq<Expr> {
        tokens_of(self.term@, self.infix@, self.term@.len() as int)
    }

    /// The tree of the expression, or why it has none.
    pub open spec fn spec_compile(&self) -> Result<Expression, Failure> {
        climb(self.spec_tokens(), 0, 0, self.span.start as nat, self.span.end as nat).tree
    }

    /// The tokens of the expression, as written from left to right.
    pub fn tokens(self) -> (tokens: Vec<Expr>)
        ensures
            tokens@ == self.spec_tokens(),
    {
        let ghost terms = self.term@;
        let ghost infixes = self.infix@;
        let mut tokens: Vec<Expr> = Vec::new();
        let mut infix = self.infix;
        let mut rest: Vec<InfixNode> = Vec::new();
        // The infix operators are taken from the back of a reversed list.
        while infix.len() > 0
            invariant
                infix@.len() + rest@.len() == infixes.len(),
                forall|at: int| 0 <= at < infix@.len() ==> infix@[at] == infixes[at],
                forall|at: int|
                    0 <= at < rest@.len() ==> rest@[at] == infixes[infixes.len() - 1 - at],
            decreases infix@.len(),
        {
            match infix.pop() {
                Some(node) => {
                    rest.push(node);
                },
                None => {},
            }
        }
        for term in iter: self.term
            invariant
                iter.seq() == terms,
                tokens@ == tokens_of(terms, infixes, iter.index() as int),
                rest@.len() == if iter.index() < infixes.len() {
                    infixes.len() - iter.index()
                } else {
                    0
                },
                forall|at: int|
                    0 <= at < rest@.len() ==> rest@[at] == infixes[infixes.len() - 1 - at],
        {
            let ghost before = tokens@;
            let ghost prefixes = term.prefix@;
            let ghost suffixes = term.suffix@;
            for node in inner: term.prefix
                invariant
                    inner.seq() == prefixes,
                    tokens@ == before + Seq::new(
                        inner.index() as nat,
                        |at: int| Expr::Prefix(prefixes[at]),
                    ),
            {
                tokens.push(Expr::Prefix(node));
                proof {
                    assert(tokens@ =~= before + Seq::new(
                        (inner.index() + 1) as nat,
                        |at: int| Expr::Prefix(prefixes[at]),
                    ));
                }
            }
            tokens.push(Expr::Term(term.atomic));
            let ghost middle = tokens@;
            for node in inner: term.suffix
                invariant
                    inner.seq() == suffixes,
                    tokens@ == middle + Seq::new(
                        inner.index() as nat,
                        |at: int| Expr::Suffix(suffixes[at]),
                    ),
            {
                tokens.push(Expr::Suffix(node));
                proof {
                    assert(tokens@ =~= middle + Seq::new(
                        (inner.index() + 1) as nat,
                        |at: int| Expr::Suffix(suffixes[at]),
                    ));
                }
            }
            proof {
                assert(tokens@ =~= before + term_tokens(term));
            }
            match rest.pop() {
                Some(node) => {
                    tokens.push(Expr::Infix(node));
                },
                None => {},
            }
        }
        tokens
    }

    /// Build the tree of the expression by precedence climbing: operands
    /// are leaves, a postfix operator wraps what stands to its left, a
    /// prefix operator wraps the operand to its right with its postfix
    /// operators, and an infix operator joins what stands to its left with
    /// the operand to its right and every operator after it that binds
    /// tighter, or as tight where the operator groups to the right. Tokens
    /// that are left over when the climbing ends are not read.
    pub fn compile(self) -> (res: Result<Expression, LifeError>)
        ensures
            match self.spec_compile() {
                Ok(tree) => res == Ok::<Expression, LifeError>(tree),
                Err(failure) => res matches Err(error) && error@ == failure,
            },
    {
        let start = self.span.start;
        let end = self.span.end;
        let tokens = self.tokens();
        climb_from(&tokens, 0, 0, start, end).tree
    }
}

} // verus!
