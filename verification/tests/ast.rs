use re0_parser::syntax::{
    AtomicNode, BooleanNode, CommentNode, CstNode, DescriptionStatementNode,
    EnumerateStatementNode, EosNode, EscapedUnicodeNode, EventGroupNode, EventItemNode,
    EventPropertyNode, EventStatementNode, ExpressionNode, IdStatementNode, IdentifierNode,
    IfStatementNode, InfixNode, IntegerNode, KwIfNode, LifeRestartRule, ListNode,
    OptionItemNode, OptionStatementNode, PrefixNode, PropertyItemNode, PropertyStatementNode,
    RequirementStatementNode, RootNode, Slot, StatementNode, StringItemNode, StringNode,
    StringNormalNode, StringRawNode, SuffixNode, TermNode, TopStatementNode, TraitGroupNode,
    TraitItemNode, TraitPropertyNode, TraitStatementNode, WhiteSpaceNode,
};
use re0_parser::LifeErrorKind;
use std::str::FromStr;

fn invalid(error: re0_parser::LifeError) -> (String, std::ops::Range<usize>) {
    match error.kind() {
        LifeErrorKind::SyntaxError { message, file, span } => {
            assert!(file.is_none());
            (message.clone(), span.clone())
        }
        other => panic!("{:?}", other),
    }
}

fn leaf(rule: LifeRestartRule, slot: Slot, text: &str) -> CstNode {
    CstNode::new(rule, slot, 3, 3 + text.len(), text.to_string(), vec![])
}

fn branch(rule: LifeRestartRule, slot: Slot, children: Vec<CstNode>) -> CstNode {
    CstNode::new(rule, slot, 1, 9, String::new(), children)
}

#[test]
fn typed_property_statement() {
    let text = "property speed { description 'fast', \"a\\tb\\u{4e2d}\" ; enumerate { slow quick } }";
    let node = PropertyStatementNode::from_text(text).unwrap();
    assert_eq!(node.span, 0..text.len());
    assert_eq!(node.get_range(), Some(0..text.len()));
    assert_eq!(node.identifier.text, "speed");
    assert_eq!(node.identifier.span, 9..14);
    assert_eq!(node.property_item.len(), 3);
    match &node.property_item[0] {
        PropertyItemNode::DescriptionStatement(description) => {
            let lines: Vec<String> = description.string.iter().map(|s| s.to_string()).collect();
            assert_eq!(lines, ["fast", "a\tb中"]);
            assert!(matches!(description.string[0], StringNode::StringRaw(_)));
            assert!(matches!(description.string[1], StringNode::StringNormal(_)));
        }
        other => panic!("{:?}", other),
    }
    assert!(matches!(node.property_item[1], PropertyItemNode::Eos(_)));
    match &node.property_item[2] {
        PropertyItemNode::EnumerateStatement(values) => {
            let names: Vec<&str> = values.variant.iter().map(|v| v.text.as_str()).collect();
            assert_eq!(names, ["slow", "quick"]);
        }
        other => panic!("{:?}", other),
    }
}

#[test]
fn from_str_is_from_text() {
    let node = RootNode::from_str("trait a {} ; event b {}").unwrap();
    assert_eq!(node.top_statement.len(), 3);
    assert!(matches!(node.top_statement[0], TopStatementNode::TraitStatement(_)));
    assert!(matches!(node.top_statement[1], TopStatementNode::Eos(_)));
    assert!(matches!(node.top_statement[2], TopStatementNode::EventStatement(_)));
    let parsed: IdentifierNode = "x1".parse().unwrap();
    assert_eq!(parsed.text, "x1");
    assert!(RootNode::from_str("trait").is_err());
    let (message, span) = invalid(IntegerNode::from_text("x").unwrap_err());
    assert_eq!(message, "expected Integer");
    assert_eq!(span, 0..0);
}

#[test]
fn every_node_type_has_a_text() {
    assert!(RootNode::from_text("").is_ok());
    assert!(TopStatementNode::from_text("property a {}").is_ok());
    assert!(EosNode::from_text(";").is_ok());
    assert!(PropertyItemNode::from_text("id 1").is_ok());
    assert!(EnumerateStatementNode::from_text("enum {}").is_ok());
    assert!(OptionStatementNode::from_text("options [a: 1, b]").is_ok());
    assert!(TraitGroupNode::from_text("talents x {}").is_ok());
    assert!(TraitStatementNode::from_text("talent x {}").is_ok());
    assert!(TraitItemNode::from_text("effect {}").is_ok());
    assert!(TraitPropertyNode::from_text("a: 1").is_ok());
    assert!(RequirementStatementNode::from_text("requires {}").is_ok());
    assert!(EventGroupNode::from_text("event-group x {}").is_ok());
    assert!(EventStatementNode::from_text("event x {}").is_ok());
    assert!(EventItemNode::from_text("options []").is_ok());
    assert!(EventPropertyNode::from_text("a: b").is_ok());
    assert!(IdStatementNode::from_text("ID 0").is_ok());
    assert!(DescriptionStatementNode::from_text("()").is_ok());
    assert!(StatementNode::from_text("if a {}").is_ok());
    assert!(IfStatementNode::from_text("if a {} else {}").is_ok());
    assert!(ExpressionNode::from_text("a").is_ok());
    assert!(TermNode::from_text("!a%").is_ok());
    assert!(PrefixNode::from_text("!").is_ok());
    assert!(InfixNode::from_text("+").is_ok());
    assert!(SuffixNode::from_text("%").is_ok());
    assert!(AtomicNode::from_text("[]").is_ok());
    assert!(ListNode::from_text("[a]").is_ok());
    assert!(StringNode::from_text("''").is_ok());
    assert!(StringRawNode::from_text("'a'").is_ok());
    assert!(StringNormalNode::from_text("\"\"").is_ok());
    assert!(StringItemNode::from_text("\\u{1}").is_ok());
    assert!(EscapedUnicodeNode::from_text("\\u{fFfF0}").is_ok());
    assert!(BooleanNode::from_text("假").is_ok());
    assert!(KwIfNode::from_text("如果").is_ok());
    assert!(WhiteSpaceNode::from_text(" ").is_ok());
    assert!(CommentNode::from_text("//").is_ok());
}

#[test]
fn optional_and_list_slots() {
    let item = OptionItemNode::from_text("a").unwrap();
    assert_eq!(item.variant.text, "a");
    assert!(item.weight.is_none());
    let item = OptionItemNode::from_text("a : 12").unwrap();
    assert_eq!(item.weight.unwrap().text, "12");
    let node = IfStatementNode::from_text("if a { b; c }").unwrap();
    assert!(node.if_else_if_block.is_none());
    assert!(node.if_else_block.is_none());
    assert_eq!(node.if_then_block.statement.len(), 3);
    let node = IfStatementNode::from_text("if a {} elif b { c } else { d e }").unwrap();
    assert_eq!(node.if_else_if_block.unwrap().statement.len(), 1);
    assert_eq!(node.if_else_block.unwrap().statement.len(), 2);
    let list = ListNode::from_text("[1, true, [x] 'y']").unwrap();
    assert_eq!(list.atomic.len(), 4);
    assert_eq!(list.comma.len(), 2);
    assert!(matches!(list.atomic[0], AtomicNode::Integer(_)));
    assert!(matches!(list.atomic[1], AtomicNode::Boolean(BooleanNode::True)));
    assert!(matches!(list.atomic[2], AtomicNode::List(_)));
    assert!(matches!(list.atomic[3], AtomicNode::StringRaw(_)));
    let expression = ExpressionNode::from_text("!a% + b 为 c").unwrap();
    assert_eq!(expression.term.len(), 3);
    assert!(matches!(expression.infix[..], [InfixNode::Add, InfixNode::EQ]));
    assert_eq!(expression.term[0].prefix.len(), 1);
    assert_eq!(expression.term[0].suffix.len(), 1);
    assert!(expression.get_range().is_some());
    assert!(InfixNode::Add.get_range().is_none());
}

#[test]
fn a_tree_without_a_needed_slot_is_an_invalid_node() {
    // a property statement without a name
    let pair = branch(LifeRestartRule::PropertyStatement, Slot::Root, vec![]);
    let (message, span) = invalid(PropertyStatementNode::from_pair(&pair).unwrap_err());
    assert_eq!(message, "invalid node PropertyStatement");
    assert_eq!(span, 1..9);
    // a choice of which no alternative is there
    let pair = branch(
        LifeRestartRule::Atomic,
        Slot::Atomic,
        vec![leaf(LifeRestartRule::Identifier, Slot::Variant, "a")],
    );
    let (message, _) = invalid(AtomicNode::from_pair(&pair).unwrap_err());
    assert_eq!(message, "invalid node Atomic");
    let pair = branch(LifeRestartRule::Infix, Slot::Infix, vec![]);
    let (message, _) = invalid(InfixNode::from_pair(&pair).unwrap_err());
    assert_eq!(message, "invalid node Infix");
    // the fault of a child is reported for the child
    let pair = branch(
        LifeRestartRule::Term,
        Slot::Term,
        vec![CstNode::new(LifeRestartRule::Atomic, Slot::Atomic, 4, 5, String::new(), vec![])],
    );
    let (message, span) = invalid(TermNode::from_pair(&pair).unwrap_err());
    assert_eq!(message, "invalid node Atomic");
    assert_eq!(span, 4..5);
    // in a list, too
    let pair = branch(
        LifeRestartRule::List,
        Slot::List,
        vec![
            branch(
                LifeRestartRule::Atomic,
                Slot::Atomic,
                vec![leaf(LifeRestartRule::Integer, Slot::Integer, "1")],
            ),
            CstNode::new(LifeRestartRule::Atomic, Slot::Atomic, 6, 7, String::new(), vec![]),
        ],
    );
    let (message, span) = invalid(ListNode::from_pair(&pair).unwrap_err());
    assert_eq!(message, "invalid node Atomic");
    assert_eq!(span, 6..7);
}

#[test]
fn alternatives_are_read_in_the_order_of_the_declaration() {
    // with two alternatives present, the first of the declaration wins
    let pair = branch(
        LifeRestartRule::Atomic,
        Slot::Atomic,
        vec![
            leaf(LifeRestartRule::Integer, Slot::Integer, "1"),
            leaf(LifeRestartRule::Identifier, Slot::Identifier, "a"),
        ],
    );
    assert!(matches!(AtomicNode::from_pair(&pair).unwrap(), AtomicNode::Identifier(_)));
    let pair = branch(
        LifeRestartRule::Infix,
        Slot::Infix,
        vec![
            leaf(LifeRestartRule::HiddenText, Slot::Sub, "-"),
            leaf(LifeRestartRule::HiddenText, Slot::Add, "+"),
        ],
    );
    assert!(matches!(InfixNode::from_pair(&pair).unwrap(), InfixNode::Add));
    // a slot that has to be filled is read from the first child that fills it
    let pair = branch(
        LifeRestartRule::IdStatement,
        Slot::IdStatement,
        vec![
            leaf(LifeRestartRule::Integer, Slot::Integer, "7"),
            leaf(LifeRestartRule::Integer, Slot::Integer, "8"),
        ],
    );
    let node = IdStatementNode::from_pair(&pair).unwrap();
    assert_eq!(node.integer.text, "7");
    assert_eq!(node.integer.span, 3..4);
    assert_eq!(node.span, 1..9);
}

fn render_atomic(node: &AtomicNode) -> String {
    match node {
        AtomicNode::Boolean(BooleanNode::True) => "true".to_string(),
        AtomicNode::Boolean(BooleanNode::False) => "false".to_string(),
        AtomicNode::Identifier(node) => node.text.clone(),
        AtomicNode::Integer(node) => node.text.clone(),
        AtomicNode::List(node) => {
            let items: Vec<String> = node
                .atomic
                .iter()
                .enumerate()
                .map(|(at, item)| {
                    let comma = if at < node.comma.len() { "," } else { "" };
                    format!("{}{}", render_atomic(item), comma)
                })
                .collect();
            format!("[{}]", items.join(" "))
        }
        AtomicNode::StringNormal(node) => render_normal(node),
        AtomicNode::StringRaw(node) => format!("'{}'", node.string_raw_text.text),
    }
}

fn render_normal(node: &StringNormalNode) -> String {
    let mut out = String::from("\"");
    for item in &node.string_item {
        match item {
            StringItemNode::EscapedCharacter(node) => out.push_str(&node.text),
            StringItemNode::EscapedUnicode(node) => out.push_str(&format!("\\u{{{}}}", node.hex.text)),
            StringItemNode::TextAny(node) => out.push_str(&node.text),
        }
    }
    out.push('"');
    out
}

fn render_infix(node: &InfixNode) -> &'static str {
    match node {
        InfixNode::Add => "+",
        InfixNode::AddAssign => "+=",
        InfixNode::And => "&&",
        InfixNode::EQ => "==",
        InfixNode::GEQ => ">=",
        InfixNode::GT => ">",
        InfixNode::Has => "has",
        InfixNode::LEQ => "<=",
        InfixNode::LT => "<",
        InfixNode::NE => "!=",
        InfixNode::Or => "||",
        InfixNode::Sub => "-",
        InfixNode::SubAssign => "-=",
    }
}

fn render_expression(node: &ExpressionNode) -> String {
    let mut out = String::new();
    for (at, term) in node.term.iter().enumerate() {
        if at > 0 {
            out.push_str(&format!(" {} ", render_infix(&node.infix[at - 1])));
        }
        for _ in &term.prefix {
            out.push('!');
        }
        out.push_str(&render_atomic(&term.atomic));
        for _ in &term.suffix {
            out.push('%');
        }
    }
    out
}

fn render_statements(nodes: &[StatementNode]) -> String {
    let parts: Vec<String> = nodes
        .iter()
        .map(|node| match node {
            StatementNode::Eos(_) => ";".to_string(),
            StatementNode::Expression(node) => render_expression(node),
            StatementNode::IfStatement(node) => {
                let mut out = format!(
                    "if {} {{{}}}",
                    render_expression(&node.if_then_block.expression),
                    render_statements(&node.if_then_block.statement)
                );
                if let Some(block) = &node.if_else_if_block {
                    out.push_str(&format!(
                        " elif {} {{{}}}",
                        render_expression(&block.expression),
                        render_statements(&block.statement)
                    ));
                }
                if let Some(block) = &node.if_else_block {
                    out.push_str(&format!(" else {{{}}}", render_statements(&block.statement)));
                }
                out
            }
        })
        .collect();
    parts.join(" ")
}

fn render_strings(node: &DescriptionStatementNode) -> String {
    let parts: Vec<String> = node
        .string
        .iter()
        .map(|string| match string {
            StringNode::StringNormal(node) => render_normal(node),
            StringNode::StringRaw(node) => format!("'{}'", node.string_raw_text.text),
        })
        .collect();
    format!("({})", parts.join(" "))
}

fn render_trait(node: &TraitStatementNode) -> String {
    let items: Vec<String> = node
        .trait_item
        .iter()
        .map(|item| match item {
            TraitItemNode::DescriptionStatement(node) => render_strings(node),
            TraitItemNode::EffectStatement(node) => {
                format!("effect {{{}}}", render_statements(&node.statement))
            }
            TraitItemNode::IdStatement(node) => format!("id {}", node.integer.text),
            TraitItemNode::RequirementStatement(node) => {
                format!("requires {{{}}}", render_statements(&node.statement))
            }
        })
        .collect();
    format!("trait {} {{{}}}", node.identifier.text, items.join(" "))
}

// The text of a node with every span taken out.
fn spanless<T: std::fmt::Debug>(node: &T) -> String {
    let text = format!("{:?}", node);
    let mut out = String::new();
    let mut rest = text.as_str();
    while let Some(at) = rest.find("span: ") {
        out.push_str(&rest[..at]);
        let tail = &rest[at + 6..];
        let end = tail.find(|c: char| c == ' ' || c == '}').unwrap();
        rest = &tail[end..];
    }
    out.push_str(rest);
    out
}

#[test]
fn a_rendered_node_parses_back_to_itself() {
    for text in [
        "trait a {}",
        "talent  brave{ id  3 description 'x' , \"y\\n\\u{41}\" }",
        "特质 勇敢 { 编号 12 描述 '不怕' 要求 { 体质 大于 3 && !胆小 ; } 效果 { 魅力 += 1 } }",
        "trait t { requires { if a has b { c -= 1; } elseif [x, [y], 'z'] { } else { !!d%% } } }",
        "trait t { effect { a + b - c += d == e || true 且 false } ('one') }",
    ] {
        let first = TraitStatementNode::from_text(text).unwrap();
        let rendered = render_trait(&first);
        let second = TraitStatementNode::from_text(&rendered).unwrap();
        assert_eq!(spanless(&first), spanless(&second), "{}", rendered);
        // rendering is stable from the second time on
        assert_eq!(render_trait(&second), rendered);
    }
}
