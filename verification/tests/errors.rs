use re0_parser::errors::{clone_file, clone_place, place_to_string};
use re0_parser::helper::{offset_to_line_col, to_decimal, PositionDisplay};
use re0_parser::syntax::RootNode;
use re0_parser::vm::{Identifier, Index, LifeVM, PropertyItem, PropertyManager};
use re0_parser::{LifeError, LifeErrorKind, LifeResult};
use url::Url;

fn file(name: &str) -> Option<Url> {
    Some(Url::parse(&format!("file:///data/{}", name)).unwrap())
}

#[test]
fn runtime_error_text() {
    let error = LifeError::runtime("disk on fire");
    assert!(matches!(error.kind(), LifeErrorKind::RuntimeError { message } if message == "disk on fire"));
    assert_eq!(error.to_string(), "Runtime Error: disk on fire");
    let void: LifeError = ().into();
    assert_eq!(void.to_string(), "Runtime Error: void exception");
}

#[test]
fn syntax_error_text() {
    let error = LifeError::syntax("expected Root", 12, 12);
    assert_eq!(error.to_string(), "Syntax Error: expected Root at 12..12");
    let error = LifeError::new(LifeErrorKind::SyntaxError {
        message: "bad".to_string(),
        file: file("a.re0"),
        span: 3..70000,
    });
    assert_eq!(error.to_string(), "Syntax Error: bad at file:///data/a.re0 at 3..70000");
    assert_eq!(
        error.kind().describe("here", "unused"),
        "Syntax Error: bad at here at 3..70000"
    );
}

#[test]
fn duplicate_error_text_cites_both_places() {
    let error = LifeError::duplicate("Duplicate talent id", (file("a.re0"), 6..7), (None, 23..24));
    assert_eq!(
        error.to_string(),
        "Duplicate Error: Duplicate talent id at file:///data/a.re0 at 6..7 and 23..24"
    );
    match error.kind() {
        LifeErrorKind::DuplicateError { message, old, new } => {
            assert_eq!(message, "Duplicate talent id");
            assert_eq!(*old, (file("a.re0"), 6..7));
            assert_eq!(*new, (None, 23..24));
        }
        other => panic!("{:?}", other),
    }
}

#[test]
fn errors_are_cloned_whole() {
    let error = LifeError::duplicate("twice", (file("a"), 1..2), (file("b"), 3..4));
    let copy = error.clone();
    assert_eq!(format!("{:?}", copy), format!("{:?}", error));
    assert_eq!(copy.to_string(), "Duplicate Error: twice at file:///data/a at 1..2 and file:///data/b at 3..4");
    let kind = LifeErrorKind::SyntaxError { message: "m".into(), file: file("c"), span: 5..6 };
    assert_eq!(format!("{:?}", kind.clone()), format!("{:?}", kind));
    let from_kind: LifeError = kind.clone().into();
    assert_eq!(format!("{:?}", from_kind.kind()), format!("{:?}", kind));
    assert_eq!(clone_file(&file("d")), file("d"));
    assert_eq!(clone_file(&None), None);
    assert_eq!(clone_place(&(file("e"), 7..9)), (file("e"), 7..9));
    assert_eq!(place_to_string(&(None, 0..18446744073709551615), "x"), "0..18446744073709551615");
    assert_eq!(place_to_string(&(file("f"), 10..20), "f.re0"), "f.re0 at 10..20");
}

fn fails() -> LifeResult<u8> {
    Err(LifeError::runtime("no"))
}

#[test]
fn results_carry_life_errors() {
    assert!(fails().is_err());
}

#[test]
fn declarations_remember_their_file() {
    let mut vm = LifeVM::default();
    let first = RootNode::from_text("property a { id 2 }").unwrap();
    vm.load_statements(first, file("one.re0")).unwrap();
    let second = RootNode::from_text("\nproperty b { id 2 }").unwrap();
    let error = vm.load_statements(second, file("two.re0")).unwrap_err();
    match error.kind() {
        LifeErrorKind::DuplicateError { message, old, new } => {
            assert_eq!(message, "Duplicate property id");
            assert_eq!(*old, (file("one.re0"), 9..10));
            assert_eq!(*new, (file("two.re0"), 10..11));
        }
        other => panic!("{:?}", other),
    }
    assert_eq!(
        error.to_string(),
        "Duplicate Error: Duplicate property id at file:///data/one.re0 at 9..10 and \
         file:///data/two.re0 at 10..11"
    );
    let entry = vm.property().get(Index::new(2).unwrap()).unwrap();
    assert_eq!(entry.id.file, file("one.re0"));
    assert_eq!(entry.id.place(), (file("one.re0"), 9..10));
}

#[test]
fn decimal_text() {
    assert_eq!(to_decimal(0), "0");
    assert_eq!(to_decimal(7), "7");
    assert_eq!(to_decimal(10), "10");
    assert_eq!(to_decimal(9081726354), "9081726354");
    assert_eq!(to_decimal(usize::MAX), usize::MAX.to_string());
}

#[test]
fn lines_and_columns() {
    let code = "ab\ncd\n\né字z";
    assert_eq!(offset_to_line_col(code, 0), (1, 1));
    assert_eq!(offset_to_line_col(code, 1), (1, 2));
    assert_eq!(offset_to_line_col(code, 2), (1, 3));
    assert_eq!(offset_to_line_col(code, 3), (2, 1));
    assert_eq!(offset_to_line_col(code, 5), (2, 3));
    assert_eq!(offset_to_line_col(code, 6), (3, 1));
    assert_eq!(offset_to_line_col(code, 7), (4, 1));
    // the offsets are byte offsets
    assert_eq!(offset_to_line_col(code, 9), (4, 2));
    assert_eq!(offset_to_line_col(code, 12), (4, 3));
    // the end of the text, an offset inside a character and one past the end
    assert_eq!(offset_to_line_col(code, 13), (4, 4));
    assert_eq!(offset_to_line_col(code, 8), (4, 4));
    assert_eq!(offset_to_line_col(code, 99), (4, 4));
    assert_eq!(offset_to_line_col("", 0), (1, 1));
    assert_eq!(offset_to_line_col("\n", 1), (2, 1));
}

#[test]
fn places_for_people() {
    let url = file("a.re0");
    let span = 3..9;
    let place = PositionDisplay::new(&url, &span);
    assert_eq!(place.file(), &url);
    assert_eq!(place.span(), &(3..9));
    assert_eq!(place.range_text(), "3..9");
    assert_eq!(place.locate("ab\ncd\nef"), (2, 1));
    assert_eq!(PositionDisplay::position_text("a.re0", (2, 1)), "a.re0:2:1");
}

#[test]
fn identifiers_and_items() {
    let id = Identifier::new("luck".to_string(), file("x"), 4, 8);
    assert_eq!(id.name, "luck");
    assert_eq!(id.span, 4..8);
    assert_eq!(id.place(), (file("x"), 4..8));
    let copy = id.clone();
    assert_eq!(copy.file, file("x"));
    let item = PropertyItem::new(id);
    assert!(item.index.is_none());
    assert!(item.text.is_empty());
    assert_eq!(item.id.name, "luck");
    let mut properties = PropertyManager::default();
    properties.insert(item.clone()).unwrap();
    assert_eq!(properties.len(), 0);
    assert_eq!(properties.waiting(), 1);
    properties.finalize();
    assert_eq!(properties.waiting(), 0);
    let stored = properties.get(Index::first()).unwrap();
    assert_eq!(stored.index, Some(Index::first()));
    assert_eq!(stored.id.name, "luck");
}
