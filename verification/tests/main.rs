use re0_parser::syntax::{
    DescriptionStatementNode, IdStatementNode, PropertyItemNode, PropertyStatementNode,
};
use re0_parser::vm::{Identifier, Index, LifeVM, StoryItem, StoryManager};
use re0_parser::{LifeError, LifeErrorKind};

#[test]
fn ready() {
    println!("it works!")
}

fn story(name: &str, index: Option<usize>) -> StoryItem {
    let mut item = StoryItem::new(Identifier::new(name.to_string(), None, 0, name.len()));
    item.index = index.map(|i| Index::new(i).unwrap());
    item
}

fn key(value: usize) -> Index {
    Index::new(value).unwrap()
}

#[test]
fn auto_index_skips_taken_keys() {
    let mut stories = StoryManager::default();
    stories.insert(story("e", Some(5))).unwrap();
    for name in ["a", "b", "c", "d"] {
        stories.insert(story(name, None)).unwrap();
    }
    assert_eq!(stories.len(), 5);
    for (at, name) in [(1, "a"), (2, "b"), (3, "c"), (4, "d"), (5, "e")] {
        let found = stories.get(key(at)).unwrap();
        assert_eq!(found.id.name, name);
        assert_eq!(found.index, Index::new(at));
    }
    // the next automatic index passes the explicit one
    stories.insert(story("f", None)).unwrap();
    assert_eq!(stories.get(key(6)).unwrap().id.name, "f");
}

#[test]
fn a_property_is_parsed_and_loaded() {
    let text = "property health { id 1 description \"HP\" }";
    let node = PropertyStatementNode::from_text(text).unwrap();
    assert_eq!(node.identifier.text, "health");
    let ids: Vec<&IdStatementNode> = node
        .property_item
        .iter()
        .filter_map(|item| match item {
            PropertyItemNode::IdStatement(node) => Some(node),
            _ => None,
        })
        .collect();
    assert_eq!(ids.len(), 1);
    assert_eq!(ids[0].integer.text, "1");
    assert_eq!(ids[0].as_index().unwrap().get(), 1);
    let texts: Vec<&DescriptionStatementNode> = node
        .property_item
        .iter()
        .filter_map(|item| match item {
            PropertyItemNode::DescriptionStatement(node) => Some(node),
            _ => None,
        })
        .collect();
    assert_eq!(texts.len(), 1);
    let lines: Vec<String> = texts[0].string.iter().map(|s| s.to_string()).collect();
    assert_eq!(lines, vec!["HP".to_string()]);

    let mut vm = LifeVM::default();
    vm.load_script(text).unwrap();
    assert_eq!(vm.property().len(), 1);
    let entry = vm.property().get(key(1)).unwrap();
    assert_eq!(entry.id.name, "health");
    assert_eq!(entry.index, Index::new(1));
    assert_eq!(entry.text, vec!["HP".to_string()]);
    assert_eq!(entry.id.span, 9..15);
    assert!(entry.id.file.is_none());
}

#[test]
fn the_same_name_twice_gets_two_keys() {
    let mut vm = LifeVM::default();
    vm.load_script("trait brave {}").unwrap();
    vm.load_script("trait brave {}").unwrap();
    assert_eq!(vm.talent().len(), 2);
    assert_eq!(vm.talent().waiting(), 0);
    assert_eq!(vm.talent().get(key(1)).unwrap().id.name, "brave");
    assert_eq!(vm.talent().get(key(2)).unwrap().id.name, "brave");
    assert!(vm.talent().get(key(3)).is_none());
}

fn duplicate_parts(error: &LifeError) -> (String, std::ops::Range<usize>, std::ops::Range<usize>) {
    match error.kind() {
        LifeErrorKind::DuplicateError { message, old, new } => {
            (message.clone(), old.1.clone(), new.1.clone())
        }
        other => panic!("not a duplicate error: {:?}", other),
    }
}

#[test]
fn the_same_index_twice_is_refused() {
    let mut vm = LifeVM::default();
    vm.load_script("trait x { id 3 }").unwrap();
    let error = vm.load_script("trait y { id 3 }").unwrap_err();
    let (message, old, new) = duplicate_parts(&error);
    assert_eq!(message, "Duplicate talent id");
    assert_eq!(old, 6..7);
    assert_eq!(new, 6..7);
    assert_eq!(vm.talent().len(), 1);
    assert_eq!(vm.talent().get(key(3)).unwrap().id.name, "x");
}

#[test]
fn duplicate_in_one_source_cites_both_spans() {
    let mut vm = LifeVM::default();
    let error = vm
        .load_script("trait x { id 3 }\ntrait y { id 3 }\ntrait z { }")
        .unwrap_err();
    let (_, old, new) = duplicate_parts(&error);
    assert_eq!(old, 6..7);
    assert_eq!(new, 23..24);
    // what was loaded before the refusal stays, what comes after is not read
    assert_eq!(vm.talent().len(), 1);
    assert_eq!(vm.talent().get(key(3)).unwrap().id.name, "x");
    assert_eq!(vm.talent().waiting(), 0);
}

#[test]
fn waiting_declarations_take_free_keys_in_order() {
    let mut vm = LifeVM::default();
    vm.load_script(
        "property a {} property b { id 1 } property c {} property d { id 3 } property e {}",
    )
    .unwrap();
    let names: Vec<String> = (1..=5)
        .map(|at| vm.property().get(key(at)).unwrap().id.name.clone())
        .collect();
    assert_eq!(names, ["b", "a", "d", "c", "e"]);
}

#[test]
fn stories_and_groups_are_loaded() {
    let mut vm = LifeVM::default();
    vm.load_script(
        "event born { description 'a' 'b' }\n\
         events childhood { event school { id 7 } event play {} }\n\
         traits basics { trait strong {} trait smart { id 1 } };",
    )
    .unwrap();
    assert_eq!(vm.story().len(), 3);
    assert_eq!(vm.story().get(key(1)).unwrap().id.name, "born");
    assert_eq!(vm.story().get(key(1)).unwrap().text, ["a", "b"]);
    assert_eq!(vm.story().get(key(7)).unwrap().id.name, "school");
    assert_eq!(vm.story().get(key(2)).unwrap().id.name, "play");
    assert_eq!(vm.talent().get(key(1)).unwrap().id.name, "smart");
    assert_eq!(vm.talent().get(key(2)).unwrap().id.name, "strong");
}

#[test]
fn index_statements_are_checked() {
    let mut vm = LifeVM::default();
    let error = vm.load_script("property a { id 0 }").unwrap_err();
    match error.kind() {
        LifeErrorKind::SyntaxError { message, file, span } => {
            assert_eq!(message, "number would be zero for non-zero type");
            assert!(file.is_none());
            assert_eq!(*span, 16..17);
        }
        other => panic!("{:?}", other),
    }
    let error = vm
        .load_script("property a { id 99999999999999999999999999 }")
        .unwrap_err();
    match error.kind() {
        LifeErrorKind::SyntaxError { message, .. } => {
            assert_eq!(message, "number too large to fit in target type");
        }
        other => panic!("{:?}", other),
    }
    assert_eq!(vm.property().len(), 0);
    let node = IdStatementNode::from_text("id 18446744073709551615").unwrap();
    assert_eq!(node.as_index().unwrap().get(), usize::MAX);
}

#[test]
fn text_that_does_not_parse_changes_nothing() {
    let mut vm = LifeVM::default();
    vm.load_script("property a {}").unwrap();
    let error = vm.load_script("property b { id }").unwrap_err();
    match error.kind() {
        LifeErrorKind::SyntaxError { message, span, .. } => {
            assert_eq!(message, "expected Root");
            assert_eq!(*span, 16..16);
        }
        other => panic!("{:?}", other),
    }
    assert_eq!(vm.property().len(), 1);
}

#[test]
fn a_whole_source_in_two_languages() {
    let text = r#"
// the numbers of a life
属性 颜值 {
    编号 1
    描述 '外貌的好坏'
    枚举 { 低, 中, 高 }
}
property strength { id 2; description "how much\tone can carry", 'body' }
/* talents come in groups */
天赋组 出身 {
    天赋 富二代 {
        编号 10
        描述 '家境 += 2'
        出现要求 { 家境 大于等于 0 && !贫穷 }
        效果 { 家境 += 2; if 颜值 has 高 { 魅力 += 1 } elif 真 { } else { 魅力 -= 1 } }
    }
    talent lucky { requires { [a, b, 'c'] has a } }
}
事件 出生 { 编号 100 ('你出生了', "在\u{4e2d}国",) 选项 [ 男: 1, 女: 1 ] }
event-group school { event exam { () } event prom { id 101 } };
"#;
    let mut vm = LifeVM::default();
    vm.load_script(text).unwrap();
    assert_eq!(vm.property().len(), 2);
    let looks = vm.property().get(key(1)).unwrap();
    assert_eq!(looks.id.name, "颜值");
    assert_eq!(looks.text, ["外貌的好坏"]);
    let strength = vm.property().get(key(2)).unwrap();
    assert_eq!(strength.text, ["how much\tone can carry", "body"]);
    assert_eq!(vm.talent().len(), 2);
    assert_eq!(vm.talent().get(key(10)).unwrap().id.name, "富二代");
    assert_eq!(vm.talent().get(key(10)).unwrap().text, ["家境 += 2"]);
    assert_eq!(vm.talent().get(key(1)).unwrap().id.name, "lucky");
    assert_eq!(vm.story().len(), 3);
    assert_eq!(vm.story().get(key(100)).unwrap().text, ["你出生了", "在中国"]);
    assert_eq!(vm.story().get(key(101)).unwrap().id.name, "prom");
    // the automatic index of a story is settled when it is read
    assert_eq!(vm.story().get(key(1)).unwrap().id.name, "exam");
}
