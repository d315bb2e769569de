use re0_parser::syntax::chars::{is_digit, is_hex_digit, is_identifier_start, is_line_end};
use re0_parser::syntax::lexical::CharClass;
use re0_parser::syntax::source::{width_of, Source};
use re0_parser::syntax::{parse_cst, LifeRestartRule, StringNode};

#[test]
fn source_is_read_by_character() {
    let source = Source::new("aé字😀");
    assert_eq!(source.len(), 4);
    assert_eq!(source.get(1), 'é');
    let offsets: Vec<usize> = (0..=4).map(|at| source.offset(at)).collect();
    assert_eq!(offsets, [0, 1, 3, 6, 10]);
    assert_eq!(source.slice(1, 3), "é字");
    assert_eq!(source.slice(2, 2), "");
    assert_eq!(source.slice(0, 4), "aé字😀");
    assert_eq!([width_of('a'), width_of('é'), width_of('字'), width_of('😀')], [1, 2, 3, 4]);
    assert_eq!([width_of('\u{7f}'), width_of('\u{80}'), width_of('\u{7ff}')], [1, 2, 2]);
    assert_eq!([width_of('\u{800}'), width_of('\u{ffff}'), width_of('\u{10000}')], [3, 3, 4]);
}

#[test]
fn character_classes() {
    assert!(CharClass::Blank.test(' ') && CharClass::Blank.test('\u{2003}'));
    assert!(!CharClass::Blank.test('a') && !CharClass::Blank.test('\u{200b}'));
    assert!(CharClass::Continue.test('a') && CharClass::Continue.test('9'));
    assert!(CharClass::Continue.test('_') && CharClass::Continue.test('\u{0301}'));
    assert!(!CharClass::Continue.test('-') && !CharClass::Continue.test(' '));
    assert!(is_identifier_start('_') && is_identifier_start('a') && is_identifier_start('字'));
    assert!(!is_identifier_start('1') && !is_identifier_start('\u{0301}'));
    assert!(is_digit('0') && is_digit('9') && !is_digit('a') && !is_digit('٣'));
    assert!(is_hex_digit('f') && is_hex_digit('A') && !is_hex_digit('g') && !is_hex_digit('G'));
    assert!(CharClass::Digit.test('5') && !CharClass::Digit.test('x'));
    assert!(CharClass::Hex.test('c') && !CharClass::Hex.test('x'));
    assert!(CharClass::Raw.test('"') && !CharClass::Raw.test('\''));
    assert!(CharClass::Plain.test('\'') && !CharClass::Plain.test('"') && !CharClass::Plain.test('\\'));
    assert!(is_line_end('\n') && is_line_end('\r') && !is_line_end(' '));
    assert!(CharClass::Line.test(' ') && !CharClass::Line.test('\n'));
}

#[test]
fn identifiers_follow_unicode() {
    // a combining mark continues an identifier but cannot start one
    let node = parse_cst("e\u{0301}x y", LifeRestartRule::Identifier).unwrap();
    assert_eq!(node.text, "e\u{0301}x");
    assert!(parse_cst("\u{0301}x", LifeRestartRule::Identifier).is_err());
    // a zero width space is no white space
    assert!(parse_cst("trait\u{200b}a {}", LifeRestartRule::TraitStatement).is_err());
    assert!(parse_cst("trait\u{2003}a {}", LifeRestartRule::TraitStatement).is_ok());
}

fn text_of(source: &str) -> String {
    StringNode::from_text(source).unwrap().to_string()
}

#[test]
fn strings_stand_for_their_text() {
    assert_eq!(text_of("'a\\nb'"), "a\\nb");
    assert_eq!(text_of("'\"'"), "\"");
    assert_eq!(text_of("\"a\\nb\\r\\t\\0\\\\\\\"\\'\\q\""), "a\nb\r\t\0\\\"'q");
    assert_eq!(text_of("\"\\u{41}\\u{4e2d}\\u{1F600}\""), "A中😀");
    // five digits at most, and no code point of a surrogate
    assert_eq!(text_of("\"\\u{FFFFF}\""), "\u{FFFFF}");
    assert_eq!(text_of("\"\\u{110000}\""), "u{110000}");
    assert_eq!(text_of("\"\\u{D800}x\""), "\u{FFFD}x");
    assert_eq!(text_of("\"\""), "");
}
