use re0_parser::syntax::{
    DescriptionStatementNode, EventGroupNode, EventStatementNode, IdStatementNode,
    IdentifierNode, PropertyStatementNode, TraitStatementNode,
};
use re0_parser::vm::{
    CharacterItem, CharacterManager, Identifier, Index, PropertyItem, PropertyManager, StoryItem,
    StoryManager, TalentItem, TalentManager,
};
use re0_parser::{LifeError, LifeErrorKind};

fn id(name: &str, at: usize) -> Identifier {
    Identifier::new(name.to_string(), None, at, at + name.len())
}

fn key(value: usize) -> Index {
    Index::new(value).unwrap()
}

fn cited(error: &LifeError) -> (String, usize, usize) {
    match error.kind() {
        LifeErrorKind::DuplicateError { message, old, new } => {
            assert!(old.0.is_none() && new.0.is_none());
            (message.clone(), old.1.start, new.1.start)
        }
        other => panic!("{:?}", other),
    }
}

#[test]
fn indices_are_positive() {
    assert!(Index::new(0).is_none());
    assert_eq!(Index::new(1), Some(Index::first()));
    assert_eq!(Index::first().get(), 1);
    assert_eq!(key(usize::MAX).get(), usize::MAX);
    assert!(key(2) == key(2) && key(2) != key(3));
}

#[test]
fn every_repeated_index_is_reported_once() {
    // explicit indices 4, 2, 4, 9, 2, 4 and two entries without index
    let mut talents = TalentManager::default();
    let mut errors = Vec::new();
    for (at, index) in [Some(4), None, Some(2), Some(4), Some(9), None, Some(2), Some(4)]
        .into_iter()
        .enumerate()
    {
        let mut item = TalentItem::new(id("t", 10 * at));
        item.index = index.map(key);
        if let Err(error) = talents.insert(item) {
            errors.push(cited(&error));
        }
    }
    talents.finalize();
    let message = "Duplicate talent id".to_string();
    assert_eq!(
        errors,
        [(message.clone(), 0, 30), (message.clone(), 20, 60), (message.clone(), 0, 70)]
    );
    // the first writer of every key keeps its slot
    let spans: Vec<(usize, usize)> = [1, 2, 3, 4, 9]
        .into_iter()
        .map(|at| (at, talents.get(key(at)).unwrap().id.span.start))
        .collect();
    assert_eq!(spans, [(1, 10), (2, 20), (3, 50), (4, 0), (9, 40)]);
    assert_eq!(talents.len(), 5);
    assert!(talents.get(key(5)).is_none());
}

#[test]
fn settled_at_once_or_later() {
    // stories settle their automatic index at once: the first writer is the unindexed entry
    let mut stories = StoryManager::default();
    stories.insert(StoryItem::new(id("a", 0))).unwrap();
    let mut late = StoryItem::new(id("b", 5));
    late.index = Some(key(1));
    let error = stories.insert(late).unwrap_err();
    assert_eq!(cited(&error), ("Duplicate story id".to_string(), 0, 5));
    assert_eq!(stories.len(), 1);
    // properties wait for theirs: the explicit index is served first
    let mut properties = PropertyManager::default();
    properties.insert(PropertyItem::new(id("a", 0))).unwrap();
    let mut late = PropertyItem::new(id("b", 5));
    late.index = Some(key(1));
    properties.insert(late).unwrap();
    properties.finalize();
    assert_eq!(properties.get(key(1)).unwrap().id.name, "b");
    assert_eq!(properties.get(key(2)).unwrap().id.name, "a");
    // finalizing again changes nothing
    properties.finalize();
    assert_eq!(properties.len(), 2);
    assert_eq!(properties.waiting(), 0);
}

#[test]
fn explicit_index_first_then_four_without() {
    let mut properties = PropertyManager::default();
    let mut five = PropertyItem::new(id("five", 0));
    five.index = Some(key(5));
    properties.insert(five).unwrap();
    for name in ["a", "b", "c", "d"] {
        properties.insert(PropertyItem::new(id(name, 1))).unwrap();
    }
    properties.finalize();
    let names: Vec<&str> = (1..=5)
        .map(|at| properties.get(key(at)).unwrap().id.name.as_str())
        .collect();
    assert_eq!(names, ["a", "b", "c", "d", "five"]);
    assert!((1..=5).all(|at| properties.get(key(at)).unwrap().index == Some(key(at))));
}

#[test]
fn the_counter_moves_past_the_key_it_gave() {
    let mut characters = CharacterManager::default();
    let mut two = CharacterItem::new(id("two", 0));
    two.index = Some(key(2));
    characters.insert(two).unwrap();
    characters.insert(CharacterItem::new(id("a", 0))).unwrap();
    characters.insert(CharacterItem::new(id("b", 0))).unwrap();
    let mut one = CharacterItem::new(id("late", 9));
    one.index = Some(key(1));
    let error = characters.insert(one).unwrap_err();
    assert_eq!(cited(&error), ("Duplicate character id".to_string(), 0, 9));
    assert_eq!(characters.get(key(1)).unwrap().id.name, "a");
    assert_eq!(characters.get(key(3)).unwrap().id.name, "b");
    assert_eq!(characters.len(), 3);
    // the largest key can be taken
    let mut last = CharacterItem::new(id("last", 0));
    last.index = Some(key(usize::MAX));
    characters.insert(last).unwrap();
    assert_eq!(characters.get(key(usize::MAX)).unwrap().id.name, "last");
}

#[test]
fn items_collect_descriptions() {
    let node = DescriptionStatementNode::from_text("description 'a' \"b\\\\c\"").unwrap();
    let mut item = StoryItem::new(id("s", 0));
    item.load_text(node.clone());
    item.load_text(node.clone());
    assert_eq!(item.text, ["a", "b\\c", "a", "b\\c"]);
    let mut item = PropertyItem::new(id("p", 0));
    item.load_text(node.clone());
    assert_eq!(item.text, ["a", "b\\c"]);
    let mut item = TalentItem::new(id("t", 0));
    item.load_text(node.clone());
    assert_eq!(item.text, ["a", "b\\c"]);
    let mut item = CharacterItem::new(id("c", 0));
    item.load_text(node);
    assert_eq!(item.text, ["a", "b\\c"]);
}

#[test]
fn nodes_become_parts_of_entries() {
    let name = IdentifierNode::from_text("luck").unwrap().as_identifier(&None);
    assert_eq!(name.name, "luck");
    assert_eq!(name.span, 0..4);
    assert!(name.file.is_none());
    assert_eq!(IdStatementNode::from_text("id 42").unwrap().as_index().unwrap(), key(42));
    let group = EventGroupNode::from_text("events youth { event a { id 1 } }").unwrap();
    let story = group.as_story(&None).unwrap();
    assert_eq!(story.id.name, "youth");
    assert!(story.index.is_none());
    assert!(story.text.is_empty());
}

#[test]
fn the_last_index_statement_counts_and_the_first_bad_one_refuses() {
    let node = PropertyStatementNode::from_text("property a { id 1 'x'; id 2 ('y' 'z') }");
    assert!(node.is_err());
    let node = PropertyStatementNode::from_text("property a { id 1 ('x'); id 2 ('y' 'z') }").unwrap();
    let item = node.as_property(&None).unwrap();
    assert_eq!(item.index, Some(key(2)));
    assert_eq!(item.text, ["x", "y", "z"]);
    let node = TraitStatementNode::from_text("trait a { id 1 id 0 id x }");
    assert!(node.is_err());
    let node = TraitStatementNode::from_text("trait a { id 1 id 0 id 99999999999999999999 }").unwrap();
    match node.as_talent(&None).unwrap_err().kind() {
        LifeErrorKind::SyntaxError { message, span, .. } => {
            assert_eq!(message, "number would be zero for non-zero type");
            assert_eq!(*span, 18..19);
        }
        other => panic!("{:?}", other),
    }
    let node = EventStatementNode::from_text("event a { options [x] requires { y } id 3 }").unwrap();
    let item = node.as_story(&None).unwrap();
    assert_eq!(item.index, Some(key(3)));
    assert!(item.text.is_empty());
}
