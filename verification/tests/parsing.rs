use re0_parser::syntax::lexical::CharClass;
use re0_parser::syntax::chars::is_identifier_start;
use re0_parser::syntax::{
    EscapedUnicodeNode, InfixNode, PropertyItemNode, PropertyStatementNode, RootNode,
    TopStatementNode,
};
use re0_parser::vm::{PropertyItem, TalentItem};
use re0_parser::LifeErrorKind;
use std::str::FromStr;

fn items(node: &PropertyStatementNode) -> Vec<String> {
    node.property_item
        .iter()
        .map(|item| match item {
            PropertyItemNode::IdStatement(id) => format!("id {}", id.integer.text),
            PropertyItemNode::DescriptionStatement(text) => {
                let lines: Vec<String> = text.string.iter().map(|s| s.to_string()).collect();
                format!("description {:?}", lines)
            }
            other => format!("{:?}", other),
        })
        .collect()
}

#[test]
fn from_str_takes_the_first_alternative_that_matches() {
    match TopStatementNode::from_str("property p {}").unwrap() {
        TopStatementNode::PropertyStatement(node) => {
            assert_eq!(node.identifier.text, "p");
            assert!(node.property_item.is_empty());
        }
        other => panic!("{:?}", other),
    }
}

#[test]
fn from_str_refuses_what_is_left_over() {
    let error = RootNode::from_str("property p {} }").unwrap_err();
    match error.kind() {
        LifeErrorKind::SyntaxError { message, file, .. } => {
            assert_eq!(message, "expected Root");
            assert!(file.is_none());
        }
        other => panic!("{:?}", other),
    }
}

#[test]
fn from_str_reads_a_property() {
    let node = PropertyStatementNode::from_str("property health { id 1 description \"HP\" }").unwrap();
    assert_eq!(node.identifier.text, "health");
    assert_eq!(items(&node), ["id 1", "description [\"HP\"]"]);
}

#[test]
fn from_str_skips_a_comment_between_keyword_and_name() {
    let plain = PropertyStatementNode::from_str("property health { id 1 }").unwrap();
    let noted = PropertyStatementNode::from_str("property // c\n health { id 1 }").unwrap();
    assert_eq!(noted.identifier.text, "health");
    assert_eq!(items(&noted), ["id 1"]);
    assert_eq!(items(&noted), items(&plain));
    assert_eq!(plain.identifier.span, 9..15);
    assert_eq!(noted.identifier.span, 15..21);
}

#[test]
fn from_str_reads_the_longer_operator() {
    assert!(matches!(InfixNode::from_str(">=").unwrap(), InfixNode::GEQ));
    assert!(matches!(InfixNode::from_str(">").unwrap(), InfixNode::GT));
    assert!(matches!(">=".parse::<InfixNode>().unwrap(), InfixNode::GEQ));
}

#[test]
fn from_str_skips_nothing_inside_a_code_point() {
    assert!(EscapedUnicodeNode::from_str("\\u{1 F}").is_err());
    assert_eq!(EscapedUnicodeNode::from_str("\\u{1F}").unwrap().hex.text, "1F");
}

fn listed_blank(c: char) -> bool {
    matches!(
        c,
        '\u{9}'..='\u{d}'
            | ' '
            | '\u{85}'
            | '\u{a0}'
            | '\u{1680}'
            | '\u{2000}'..='\u{200a}'
            | '\u{2028}'
            | '\u{2029}'
            | '\u{202f}'
            | '\u{205f}'
            | '\u{3000}'
    )
}

#[test]
fn blanks_are_the_twenty_five_characters() {
    let mut count = 0;
    for c in '\0'..=char::MAX {
        assert_eq!(CharClass::Blank.test(c), listed_blank(c), "{:?}", c);
        if listed_blank(c) {
            count += 1;
        }
    }
    assert_eq!(count, 25);
}

#[test]
fn identifier_characters_of_ascii() {
    for c in '\0'..='\u{7f}' {
        let letter = c.is_ascii_alphabetic();
        assert_eq!(is_identifier_start(c), letter || c == '_', "{:?}", c);
        assert_eq!(CharClass::Continue.test(c), letter || c.is_ascii_digit() || c == '_', "{:?}", c);
    }
}

#[test]
fn default_items_are_empty() {
    let property = PropertyItem::default();
    assert_eq!(property.id.name, "");
    assert!(property.id.file.is_none());
    assert_eq!(property.id.span, 0..0);
    assert!(property.index.is_none());
    assert!(property.text.is_empty());
    let talent = TalentItem::default();
    assert_eq!(talent.id.name, "");
    assert!(talent.id.file.is_none());
    assert_eq!(talent.id.span, 0..0);
    assert!(talent.index.is_none());
    assert!(talent.text.is_empty());
}

fn names(root: &RootNode) -> Vec<String> {
    root.top_statement
        .iter()
        .map(|statement| match statement {
            TopStatementNode::TraitStatement(node) => format!("trait {}", node.identifier.text),
            TopStatementNode::PropertyStatement(node) => {
                format!("property {} {:?}", node.identifier.text, items(node))
            }
            TopStatementNode::Eos(_) => ";".to_string(),
            other => format!("{:?}", other),
        })
        .collect()
}

#[test]
fn a_gap_before_a_source_changes_only_spans() {
    let text = "trait a {} ; property b { id 2 }";
    let alone = RootNode::from_str(text).unwrap();
    for gap in [" ", "\t\r\n\u{3000}", "/* c */", "// c\n", "/**/ // c\r /* d\n */\n"] {
        let behind = RootNode::from_str(&format!("{}{}", gap, text)).unwrap();
        assert_eq!(names(&behind), names(&alone), "{:?}", gap);
        assert_eq!(names(&behind), ["trait a", ";", "property b [\"id 2\"]"]);
        assert_eq!(behind.span, 0..gap.len() + text.len());
        let at = |node: &TopStatementNode| node.get_range().unwrap();
        for (moved, fixed) in behind.top_statement.iter().zip(&alone.top_statement) {
            assert_eq!(at(moved).start, at(fixed).start + gap.len());
            assert_eq!(at(moved).end, at(fixed).end + gap.len());
        }
        // what is refused alone is refused behind the gap, further on
        let bad = "trait a {} }";
        let here = RootNode::from_str(bad).unwrap_err();
        let there = RootNode::from_str(&format!("{}{}", gap, bad)).unwrap_err();
        match (here.kind(), there.kind()) {
            (
                LifeErrorKind::SyntaxError { span: here, .. },
                LifeErrorKind::SyntaxError { span: there, .. },
            ) => {
                assert_eq!(there.start, here.start + gap.len());
                assert_eq!(there.end, here.end + gap.len());
            }
            other => panic!("{:?}", other),
        }
    }
}
