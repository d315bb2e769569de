use pratt::{Affix, Associativity, PrattParser, Precedence};
use re0_parser::syntax::{AtomicNode, BooleanNode, ExpressionNode, InfixNode, PrefixNode, SuffixNode};
use re0_parser::vm::climb::{climb_from, Affix as Binding, Associativity as Side, Expr};
use re0_parser::vm::{BinaryExpression, Expression, Operator, UnaryExpression};
use re0_parser::{LifeError, LifeErrorKind};

fn show(tree: &Expression) -> String {
    match tree {
        Expression::Boolean(value) => format!("{}", value),
        Expression::Unary(unary) => format!("({:?} {})", unary.operator, show(&unary.base)),
        Expression::Binary(binary) => {
            format!("({} {:?} {})", show(&binary.lhs), binary.operator, show(&binary.rhs))
        }
    }
}

fn compile(text: &str) -> String {
    show(&ExpressionNode::from_text(text).unwrap().compile().unwrap())
}

#[test]
fn constructors_build_the_tree() {
    let tree = Expression::infix(
        Expression::prefix(Operator::Not, Expression::Boolean(true)),
        Operator::Or,
        Expression::suffix(Expression::Boolean(false), Operator::Percent),
    );
    assert_eq!(show(&tree), "((Not true) Or (Percent false))");
    match tree.clone() {
        Expression::Binary(BinaryExpression { operator, lhs, rhs }) => {
            assert_eq!(operator, Operator::Or);
            assert!(matches!(*lhs, Expression::Unary(UnaryExpression { operator: Operator::Not, .. })));
            assert!(matches!(*rhs, Expression::Unary(_)));
        }
        other => panic!("{:?}", other),
    }
}

#[test]
fn operands_are_leaves() {
    assert_eq!(compile("true"), "true");
    assert_eq!(compile("false"), "false");
    assert_eq!(compile("假"), "false");
    // every other operand stands for true
    assert_eq!(compile("x"), "true");
    assert_eq!(compile("12"), "true");
    assert_eq!(compile("[false]"), "true");
    assert_eq!(compile("'false'"), "true");
}

#[test]
fn every_operator_has_a_tree_operator_of_its_own() {
    for (text, operator) in [
        ("+", "Add"),
        ("+=", "AddAssign"),
        ("-", "Sub"),
        ("-=", "SubAssign"),
        ("==", "Equal"),
        ("!=", "NotEqual"),
        ("<", "Less"),
        ("<=", "LessEqual"),
        (">", "Greater"),
        (">=", "GreaterEqual"),
        ("&&", "And"),
        ("||", "Or"),
        ("has", "Has"),
    ] {
        assert_eq!(compile(&format!("true {} false", text)), format!("(true {} false)", operator));
    }
    assert_eq!(compile("!true"), "(Not true)");
    assert_eq!(compile("true%"), "(Percent true)");
}

#[test]
fn precedence_and_grouping() {
    // additive operators group to the left
    assert_eq!(compile("true + false - true"), "((true Add false) Sub true)");
    // assignments group to the right
    assert_eq!(compile("true += false -= true"), "(true AddAssign (false SubAssign true))");
    // assignments bind tighter than additive operators
    assert_eq!(compile("true + false += true"), "(true Add (false AddAssign true))");
    assert_eq!(compile("true += false + true"), "((true AddAssign false) Add true)");
    // additive operators bind tighter than the relational level
    assert_eq!(compile("true == false + true"), "(true Equal (false Add true))");
    assert_eq!(compile("true + false == true"), "((true Add false) Equal true)");
    // the relational level is one level and groups to the left
    assert_eq!(compile("true && false || true"), "((true And false) Or true)");
    assert_eq!(compile("true || false && true"), "((true Or false) And true)");
    assert_eq!(compile("true < false == true has false"), "(((true Less false) Equal true) Has false)");
    // a prefix operator binds tighter than any infix operator
    assert_eq!(compile("!true + false"), "((Not true) Add false)");
    assert_eq!(compile("true + !false"), "(true Add (Not false))");
    // a postfix operator binds tighter still
    assert_eq!(compile("!true%"), "(Not (Percent true))");
    assert_eq!(compile("!!true%% - false%"), "((Not (Not (Percent (Percent true)))) Sub (Percent false))");
}

fn token(text: &str) -> Expr {
    match text {
        "t" => Expr::Term(AtomicNode::Boolean(BooleanNode::True)),
        "f" => Expr::Term(AtomicNode::Boolean(BooleanNode::False)),
        "!" => Expr::Prefix(PrefixNode::Prefix0),
        "%" => Expr::Suffix(SuffixNode::Suffix0),
        "+" => Expr::Infix(InfixNode::Add),
        "-" => Expr::Infix(InfixNode::Sub),
        "+=" => Expr::Infix(InfixNode::AddAssign),
        "==" => Expr::Infix(InfixNode::EQ),
        "&&" => Expr::Infix(InfixNode::And),
        other => panic!("{}", other),
    }
}

fn tokens(text: &str) -> Vec<Expr> {
    text.split_whitespace().map(token).collect()
}

fn syntax_message(error: &LifeError) -> (String, std::ops::Range<usize>) {
    match error.kind() {
        LifeErrorKind::SyntaxError { message, span, .. } => (message.clone(), span.clone()),
        other => panic!("{:?}", other),
    }
}

#[test]
fn token_lists_that_are_no_expression() {
    let none = climb_from(&tokens(""), 0, 0, 2, 5);
    assert_eq!(
        syntax_message(&none.tree.unwrap_err()),
        ("expected an operand, found the end of the expression".to_string(), 2..5)
    );
    let lone = climb_from(&tokens("+ t"), 0, 0, 0, 3);
    assert_eq!(
        syntax_message(&lone.tree.unwrap_err()).0,
        "expected an operand, found an infix operator"
    );
    let lone = climb_from(&tokens("% t"), 0, 0, 0, 3);
    assert_eq!(
        syntax_message(&lone.tree.unwrap_err()).0,
        "expected an operand, found a postfix operator"
    );
    let open = climb_from(&tokens("t + !"), 0, 0, 0, 3);
    assert_eq!(
        syntax_message(&open.tree.unwrap_err()).0,
        "expected an operand, found the end of the expression"
    );
    // tokens that are left over are not read
    let two = climb_from(&tokens("t f + t"), 0, 0, 0, 0);
    assert_eq!(show(&two.tree.unwrap()), "true");
    assert_eq!(two.next, 1);
}

#[test]
fn a_token_asked_to_be_what_it_is_not_is_a_runtime_error() {
    let operand = token("t");
    let operator = token("+");
    for error in [
        operator.primary().unwrap_err(),
        operand.infix(Expression::Boolean(true), Expression::Boolean(true)).unwrap_err(),
        operand.prefix(Expression::Boolean(true)).unwrap_err(),
        operator.postfix(Expression::Boolean(true)).unwrap_err(),
    ] {
        match error.kind() {
            LifeErrorKind::RuntimeError { message } => {
                assert_eq!(message, "the token is not of the kind asked for")
            }
            other => panic!("{:?}", other),
        }
    }
}

#[test]
fn the_table_of_binding_powers() {
    assert_eq!(token("t").query(), Binding::Nilfix);
    assert_eq!(token("!").query(), Binding::Prefix(2000));
    assert_eq!(token("%").query(), Binding::Postfix(3000));
    assert_eq!(token("+=").query(), Binding::Infix(100, Side::Right));
    assert_eq!(token("+").query(), Binding::Infix(90, Side::Left));
    assert_eq!(token("-").query(), Binding::Infix(90, Side::Left));
    assert_eq!(token("==").query(), Binding::Infix(2, Side::Left));
    assert_eq!(token("&&").query(), Binding::Infix(2, Side::Left));
    assert_eq!(Binding::Infix(90, Side::Left).left(), 900);
    assert_eq!(Binding::Infix(90, Side::Left).next(), 901);
    assert_eq!(Binding::Infix(90, Side::Left).right(), 900);
    assert_eq!(Binding::Infix(100, Side::Right).right(), 999);
    assert_eq!(Binding::Infix(7, Side::Neither).right(), 71);
    assert_eq!(Binding::Infix(7, Side::Neither).next(), 70);
    assert_eq!(Binding::Prefix(2000).right(), 19999);
    assert_eq!(Binding::Prefix(2000).left(), 0);
    assert_eq!(Binding::Postfix(3000).left(), 30000);
    assert_eq!(Binding::Nilfix.next(), 0xFFFF_FFFF);
}

// The same callbacks behind the climbing of the `pratt` crate.
struct Reference;

impl PrattParser<std::vec::IntoIter<Expr>> for Reference {
    type Error = String;
    type Input = Expr;
    type Output = Expression;

    fn query(&mut self, input: &Expr) -> Result<Affix, String> {
        Ok(match input.query() {
            Binding::Nilfix => Affix::Nilfix,
            Binding::Prefix(p) => Affix::Prefix(Precedence(p)),
            Binding::Postfix(p) => Affix::Postfix(Precedence(p)),
            Binding::Infix(p, side) => Affix::Infix(
                Precedence(p),
                match side {
                    Side::Left => Associativity::Left,
                    Side::Right => Associativity::Right,
                    Side::Neither => Associativity::Neither,
                },
            ),
        })
    }

    fn primary(&mut self, input: Expr) -> Result<Expression, String> {
        input.primary().map_err(|e| e.to_string())
    }

    fn infix(&mut self, lhs: Expression, op: Expr, rhs: Expression) -> Result<Expression, String> {
        op.infix(lhs, rhs).map_err(|e| e.to_string())
    }

    fn prefix(&mut self, op: Expr, rhs: Expression) -> Result<Expression, String> {
        op.prefix(rhs).map_err(|e| e.to_string())
    }

    fn postfix(&mut self, lhs: Expression, op: Expr) -> Result<Expression, String> {
        op.postfix(lhs).map_err(|e| e.to_string())
    }
}

#[test]
fn climbing_agrees_with_the_pratt_crate() {
    let words = ["t", "f", "!", "%", "+", "-", "+=", "==", "&&"];
    // every list of up to five tokens
    let mut lists: Vec<Vec<&str>> = vec![vec![]];
    let mut last: Vec<Vec<&str>> = vec![vec![]];
    for _ in 0..5 {
        let mut next = Vec::new();
        for list in &last {
            for word in words {
                let mut longer = list.clone();
                longer.push(word);
                next.push(longer);
            }
        }
        lists.extend(next.iter().cloned());
        last = next;
    }
    assert_eq!(lists.len(), 1 + 9 + 81 + 729 + 6561 + 59049);
    let mut trees = 0;
    for list in lists {
        let text = list.join(" ");
        let ours = climb_from(&tokens(&text), 0, 0, 0, 0).tree;
        let theirs = Reference.parse(tokens(&text).into_iter());
        match (ours, theirs) {
            (Ok(ours), Ok(theirs)) => {
                assert_eq!(show(&ours), show(&theirs), "{}", text);
                trees += 1;
            }
            (Err(_), Err(_)) => {}
            (ours, theirs) => panic!("{}: {:?} and {:?}", text, ours, theirs.map_err(|e| e.to_string())),
        }
    }
    assert!(trees > 1000);
}
