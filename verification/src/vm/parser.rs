//! From typed declarations to registry entries, and from a whole source to
//! the registries of a load session.

use crate::errors::{clone_file, fails_with, Failure, LifeError};
use crate::syntax::nodes::{
    DescriptionStatementNode, EventGroupNode, EventItemNode, EventStatementNode,
    IdStatementNode, IdentifierNode, PropertyItemNode, PropertyStatementNode, StringNode,
    TraitItemNode, TraitStatementNode,
};

use crate::vm::characters::CharacterItem;
use crate::vm::identifier::Identifier;
use crate::vm::index::Index;
use crate::vm::properties::{PropertyItem, PropertyManager, DUPLICATE_PROPERTY};
use crate::vm::record::{group_lines, lines, Record};
use crate::vm::registry::RegistryView;
use crate::vm::stories::{StoryItem, StoryManager, DUPLICATE_STORY};
use crate::vm::talents::{TalentItem, TalentManager, DUPLICATE_TALENT};
use url::Url;
use vstd::prelude::*;

verus! {

broadcast use group_lines;

/// The texts of the first `upto` strings of a description, in order.
pub open spec fn strings_text(strings: Seq<StringNode>, upto: int) -> Seq<Seq<char>>
    decreases upto,
{
    if upto <= 0 {
        Seq::empty()
    } else {
        strings_text(strings, upto - 1).push(strings[upto - 1].spec_text())
    }
}

impl DescriptionStatementNode {
    /// The lines of the description: the texts of its strings, in order.
    pub open spec fn spec_lines(&self) -> Seq<Seq<char>> {
        strings_text(self.string@, self.string@.len() as int)
    }

    /// Add the lines of the description to `text`.
    pub fn add_to(&self, text: &mut Vec<String>)
        ensures
            lines(final(text)@) == lines(old(text)@) + self.spec_lines(),
    {
        let mut at: usize = 0;
        proof {
            assert(lines(text@) + Seq::<Seq<char>>::empty() =~= lines(text@));
        }
        while at < self.string.len()
            invariant
                at <= self.string@.len(),
                lines(text@) == lines(old(text)@) + strings_text(self.string@, at as int),
            decreases self.string@.len() - at,
        {
            let line = self.string[at].to_string();
            text.push(line);
            proof {
                assert((lines(old(text)@) + strings_text(self.string@, at as int)).push(line@)
                    =~= lines(old(text)@) + strings_text(self.string@, at + 1));
            }
            at = at + 1;
        }
    }
}

/// What a declaration body item has to say for the registries.
pub trait BodyItem {
    /// The statement of the item that declares an index, if it is one.
    spec fn spec_id_statement(&self) -> Option<IdStatementNode>;

    /// The description of the item, if it is one.
    spec fn spec_description(&self) -> Option<DescriptionStatementNode>;

    /// The statement of the item that declares an index, if it is one.
    fn id_statement(&self) -> (found: Option<&IdStatementNode>)
        ensures
            match found {
                Some(node) => self.spec_id_statement() == Some(*node),
                None => self.spec_id_statement() is None,
            },
    ;

    /// The description of the item, if it is one.
    fn description(&self) -> (found: Option<&DescriptionStatementNode>)
        ensures
            match found {
                Some(node) => self.spec_description() == Some(*node),
                None => self.spec_description() is None,
            },
    ;
}

impl BodyItem for PropertyItemNode {
    open spec fn spec_id_statement(&self) -> Option<IdStatementNode> {
        match self {
            PropertyItemNode::IdStatement(node) => Some(*node),
            _ => None,
        }
    }

    open spec fn spec_description(&self) -> Option<DescriptionStatementNode> {
        match self {
            PropertyItemNode::DescriptionStatement(node) => Some(*node),
            _ => None,
        }
    }

    fn id_statement(&self) -> (found: Option<&IdStatementNode>) {
        match self {
            PropertyItemNode::IdStatement(node) => Some(node),
            _ => None,
        }
    }

    fn description(&self) -> (found: Option<&DescriptionStatementNode>) {
        match self {
            PropertyItemNode::DescriptionStatement(node) => Some(node),
            _ => None,
        }
    }
}

impl BodyItem for TraitItemNode {
    open spec fn spec_id_statement(&self) -> Option<IdStatementNode> {
        match self {
            TraitItemNode::IdStatement(node) => Some(*node),
            _ => None,
        }
    }

    open spec fn spec_description(&self) -> Option<DescriptionStatementNode> {
        match self {
            TraitItemNode::DescriptionStatement(node) => Some(*node),
            _ => None,
        }
    }

    fn id_statement(&self) -> (found: Option<&IdStatementNode>) {
        match self {
            TraitItemNode::IdStatement(node) => Some(node),
            _ => None,
        }
    }

    fn description(&self) -> (found: Option<&DescriptionStatementNode>) {
        match self {
            TraitItemNode::DescriptionStatement(node) => Some(node),
            _ => None,
        }
    }
}

impl BodyItem for EventItemNode {
    open spec fn spec_id_statement(&self) -> Option<IdStatementNode> {
        match self {
            EventItemNode::IdStatement(node) => Some(*node),
            _ => None,
        }
    }

    open spec fn spec_description(&self) -> Option<DescriptionStatementNode> {
        match self {
            EventItemNode::DescriptionStatement(node) => Some(*node),
            _ => None,
        }
    }

    fn id_statement(&self) -> (found: Option<&IdStatementNode>) {
        match self {
            EventItemNode::IdStatement(node) => Some(node),
            _ => None,
        }
    }

    fn description(&self) -> (found: Option<&DescriptionStatementNode>) {
        match self {
            EventItemNode::DescriptionStatement(node) => Some(node),
            _ => None,
        }
    }
}

/// What the body of a declaration declares: the index, if one is given, and
/// the lines of the description.
pub ghost struct Body {
    pub index: Option<Index>,
    pub text: Seq<Seq<char>>,
}

/// What the body declares after one more item: an index statement sets the
/// index or fails, a description adds its lines, and any other item changes
/// nothing.
pub open spec fn body_with<I: BodyItem>(body: Body, item: I) -> Result<Body, Failure> {
    match item.spec_id_statement() {
        Some(node) => match node.spec_as_index() {
            Ok(index) => Ok(Body { index: Some(index), ..body }),
            Err(failure) => Err(failure),
        },
        None => match item.spec_description() {
            Some(node) => Ok(Body { text: body.text + node.spec_lines(), ..body }),
            None => Ok(body),
        },
    }
}

/// What the first `upto` items of a body declare, read in order up to the
/// first index statement that fails.
pub open spec fn body_of<I: BodyItem>(items: Seq<I>, upto: int) -> Result<Body, Failure>
    decreases upto,
{
    if upto <= 0 {
        Ok(Body { index: None, text: Seq::empty() })
    } else {
        match body_of(items, upto - 1) {
            Ok(body) => body_with(body, items[upto - 1]),
            Err(failure) => Err(failure),
        }
    }
}

/// Read what the body `items` declares.
pub fn read_body<I: BodyItem>(items: &Vec<I>) -> (res: Result<
    (Option<Index>, Vec<String>),
    LifeError,
>)
    ensures
        match body_of(items@, items@.len() as int) {
            Ok(body) => {
                &&& res matches Ok(found)
                &&& found.0 == body.index
                &&& lines(found.1@) == body.text
            },
            Err(failure) => res matches Err(error) && error@ == failure,
        },
{
    let mut index: Option<Index> = None;
    let mut text: Vec<String> = Vec::new();
    let mut at: usize = 0;
    while at < items.len()
        invariant
            at <= items@.len(),
            body_of(items@, at as int) == Ok::<Body, Failure>(Body { index, text: lines(text@) }),
        decreases items@.len() - at,
    {
        match items[at].id_statement() {
            Some(node) => match node.as_index() {
                Ok(found) => {
                    index = Some(found);
                },
                Err(error) => {
                    proof {
                        lemma_body_fails(items@, at + 1, items@.len() as int);
                    }
                    return Err(error);
                },
            },
            None => match items[at].description() {
                Some(node) => {
                    node.add_to(&mut text);
                },
                None => {},
            },
        }
        at = at + 1;
    }
    Ok((index, text))
}

/// A body that fails after some of its items fails the same way after all
/// of them.
pub proof fn lemma_body_fails<I: BodyItem>(items: Seq<I>, short: int, long: int)
    requires
        short <= long,
        body_of(items, short) is Err,
    ensures
        body_of(items, long) == body_of(items, short),
    decreases long - short,
{
    if short < long {
        lemma_body_fails(items, short, long - 1);
    }
}

/// The declaration with the name `name`, written in `file`, whose body
/// declares `body`.
pub open spec fn declaration(name: IdentifierNode, file: Option<Url>, body: Body) -> Record {
    Record {
        name: name.text@,
        file,
        start: name.span.start as nat,
        end: name.span.end as nat,
        index: body.index,
        text: body.text,
    }
}

impl IdentifierNode {
    /// The identifier of a declaration with this name, written in `file`.
    pub fn as_identifier(self, file: &Option<Url>) -> (id: Identifier)
        ensures
            id.name == self.text,
            id.file == *file,
            id.span.start == self.span.start,
            id.span.end == self.span.end,
    {
        Identifier { name: self.text, file: clone_file(file), span: self.span }
    }
}

impl PropertyStatementNode {
    /// The property that the statement declares, or why it declares none.
    pub open spec fn spec_record(&self, file: Option<Url>) -> Result<Record, Failure> {
        match body_of(self.property_item@, self.property_item@.len() as int) {
            Ok(body) => Ok(declaration(self.identifier, file, body)),
            Err(failure) => Err(failure),
        }
    }

    /// The property that the statement declares, written in `file`. It has
    /// the index of the last index statement of the body and the lines of
    /// all its descriptions. The first index statement that is refused
    /// refuses the declaration.
    pub fn as_property(self, file: &Option<Url>) -> (res: Result<PropertyItem, LifeError>)
        ensures
            match self.spec_record(*file) {
                Ok(record) => res matches Ok(item) && item@ == record,
                Err(failure) => res matches Err(error) && error@ == failure,
            },
    {
        match read_body(&self.property_item) {
            Ok((index, text)) => Ok(
                PropertyItem { id: self.identifier.as_identifier(file), index, text },
            ),
            Err(error) => Err(error),
        }
    }
}

impl TraitStatementNode {
    /// The talent that the statement declares, or why it declares none.
    pub open spec fn spec_record(&self, file: Option<Url>) -> Result<Record, Failure> {
        match body_of(self.trait_item@, self.trait_item@.len() as int) {
            Ok(body) => Ok(declaration(self.identifier, file, body)),
            Err(failure) => Err(failure),
        }
    }

    /// The talent that the statement declares, written in `file`. It has the
    /// index of the last index statement of the body and the lines of all
    /// its descriptions. The first index statement that is refused refuses
    /// the declaration.
    pub fn as_talent(self, file: &Option<Url>) -> (res: Result<TalentItem, LifeError>)
        ensures
            match self.spec_record(*file) {
                Ok(record) => res matches Ok(item) && item@ == record,
                Err(failure) => res matches Err(error) && error@ == failure,
            },
    {
        match read_body(&self.trait_item) {
            Ok((index, text)) => Ok(
                TalentItem { id: self.identifier.as_identifier(file), index, text },
            ),
            Err(error) => Err(error),
        }
    }
}

impl EventStatementNode {
    /// The story that the statement declares, or why it declares none.
    pub open spec fn spec_record(&self, file: Option<Url>) -> Result<Record, Failure> {
        match body_of(self.event_item@, self.event_item@.len() as int) {
            Ok(body) => Ok(declaration(self.identifier, file, body)),
            Err(failure) => Err(failure),
        }
    }

    /// The story that the statement declares, written in `file`. It has the
    /// index of the last index statement of the body and the lines of all
    /// its descriptions. The first index statement that is refused refuses
    /// the declaration.
    pub fn as_story(self, file: &Option<Url>) -> (res: Result<StoryItem, LifeError>)
        ensures
            match self.spec_record(*file) {
                Ok(record) => res matches Ok(item) && item@ == record,
                Err(failure) => res matches Err(error) && error@ == failure,
            },
    {
        match read_body(&self.event_item) {
            Ok((index, text)) => Ok(
                StoryItem { id: self.identifier.as_identifier(file), index, text },
            ),
            Err(error) => Err(error),
        }
    }
}

impl EventGroupNode {
    /// The story that stands for the group as a whole, written in `file`: it
    /// has the name of the group, no index and no description.
    pub fn as_story(self, file: &Option<Url>) -> (res: Result<StoryItem, LifeError>)
        ensures
            res matches Ok(item) && item@ == declaration(
                self.identifier,
                *file,
                Body { index: None, text: Seq::empty() },
            ),
    {
        Ok(StoryItem::new(self.identifier.as_identifier(file)))
    }
}

impl PropertyItem {
    /// Add the lines of a description to those of the property.
    pub fn load_text(&mut self, node: DescriptionStatementNode)
        ensures
            final(self)@ == (Record { text: old(self)@.text + node.spec_lines(), ..old(self)@ }),
    {
        node.add_to(&mut self.text);
    }
}

impl TalentItem {
    /// Add the lines of a description to those of the talent.
    pub fn load_text(&mut self, node: DescriptionStatementNode)
        ensures
            final(self)@ == (Record { text: old(self)@.text + node.spec_lines(), ..old(self)@ }),
    {
        node.add_to(&mut self.text);
    }
}

impl StoryItem {
    /// Add the lines of a description to those of the story.
    pub fn load_text(&mut self, node: DescriptionStatementNode)
        ensures
            final(self)@ == (Record { text: old(self)@.text + node.spec_lines(), ..old(self)@ }),
    {
        node.add_to(&mut self.text);
    }
}

impl CharacterItem {
    /// Add the lines of a description to those of the character.
    pub fn load_text(&mut self, node: DescriptionStatementNode)
        ensures
            final(self)@ == (Record { text: old(self)@.text + node.spec_lines(), ..old(self)@ }),
    {
        node.add_to(&mut self.text);
    }
}

/// A registry after a declaration was loaded, and the failure if it was
/// refused.
pub ghost struct Entered {
    pub registry: RegistryView,
    pub failure: Option<Failure>,
}

/// Loading a declaration that waits for its automatic index: a declaration
/// that declares nothing changes nothing and fails as its body does; any
/// other is inserted.
pub open spec fn enter_later(
    registry: RegistryView,
    record: Result<Record, Failure>,
    message: Seq<char>,
) -> Entered {
    match record {
        Ok(record) => Entered {
            registry: registry.enter_later(record),
            failure: registry.collision(record, message),
        },
        Err(failure) => Entered { registry, failure: Some(failure) },
    }
}

/// Loading a declaration whose automatic index is settled at once: a
/// declaration that declares nothing changes nothing and fails as its body
/// does; any other is inserted.
pub open spec fn enter_now(
    registry: RegistryView,
    record: Result<Record, Failure>,
    message: Seq<char>,
) -> Entered {
    match record {
        Ok(record) => Entered {
            registry: registry.enter_now(record),
            failure: registry.failure_now(record, message),
        },
        Err(failure) => Entered { registry, failure: Some(failure) },
    }
}

impl PropertyManager {
    /// Load the property that `node` declares, written in `file`.
    pub fn load_property(&mut self, node: PropertyStatementNode, file: Option<Url>) -> (res: Result<
        (),
        LifeError,
    >)
        ensures
            final(self)@ == enter_later(
                old(self)@,
                node.spec_record(file),
                DUPLICATE_PROPERTY@,
            ).registry,
            fails_with(
                res,
                enter_later(old(self)@, node.spec_record(file), DUPLICATE_PROPERTY@).failure,
            ),
            old(self)@.wf() ==> final(self)@.wf(),
    {
        match node.as_property(&file) {
            Ok(item) => self.insert(item),
            Err(error) => Err(error),
        }
    }
}

impl TalentManager {
    /// Load the talent that `node` declares, written in `file`.
    pub fn load_talent(&mut self, node: TraitStatementNode, file: &Option<Url>) -> (res: Result<
        (),
        LifeError,
    >)
        ensures
            final(self)@ == enter_later(
                old(self)@,
                node.spec_record(*file),
                DUPLICATE_TALENT@,
            ).registry,
            fails_with(
                res,
                enter_later(old(self)@, node.spec_record(*file), DUPLICATE_TALENT@).failure,
            ),
            old(self)@.wf() ==> final(self)@.wf(),
    {
        match node.as_talent(file) {
            Ok(item) => self.insert(item),
            Err(error) => Err(error),
        }
    }

    /// The registry after the first `upto` of `traits` were loaded in
    /// order, up to the first that is refused, and the failure of that one.
    pub open spec fn spec_load_talents(
        registry: RegistryView,
        traits: Seq<TraitStatementNode>,
        upto: int,
        file: Option<Url>,
    ) -> Entered
        decreases upto,
    {
        if upto <= 0 {
            Entered { registry, failure: None }
        } else {
            let before = Self::spec_load_talents(registry, traits, upto - 1, file);
            if before.failure is Some {
                before
            } else {
                enter_later(before.registry, traits[upto - 1].spec_record(file), DUPLICATE_TALENT@)
            }
        }
    }

    /// Once a talent is refused, the talents after it change nothing.
    pub proof fn lemma_load_talents_stops(
        registry: RegistryView,
        traits: Seq<TraitStatementNode>,
        short: int,
        long: int,
        file: Option<Url>,
    )
        requires
            short <= long,
            Self::spec_load_talents(registry, traits, short, file).failure is Some,
        ensures
            Self::spec_load_talents(registry, traits, long, file) == Self::spec_load_talents(
                registry,
                traits,
                short,
                file,
            ),
        decreases long - short,
    {
        if short < long {
            Self::lemma_load_talents_stops(registry, traits, short, long - 1, file);
        }
    }

    /// Load the talents that `traits` declare, written in `file`, in order.
    /// The first that is refused ends the loading.
    pub fn load_talents(&mut self, traits: Vec<TraitStatementNode>, file: &Option<Url>) -> (res:
        Result<(), LifeError>)
        ensures
            final(self)@ == Self::spec_load_talents(
                old(self)@,
                traits@,
                traits@.len() as int,
                *file,
            ).registry,
            fails_with(
                res,
                Self::spec_load_talents(old(self)@, traits@, traits@.len() as int, *file).failure,
            ),
            old(self)@.wf() ==> final(self)@.wf(),
    {
        let ghost all = traits@;
        for node in iter: traits
            invariant
                iter.seq() == all,
                old(self)@.wf() ==> self@.wf(),
                Self::spec_load_talents(old(self)@, all, iter.index() as int, *file) == (Entered {
                    registry: self@,
                    failure: None,
                }),
        {
            match self.load_talent(node, file) {
                Ok(()) => {},
                Err(error) => {
                    proof {
                        Self::lemma_load_talents_stops(
                            old(self)@,
                            all,
                            iter.index() + 1,
                            all.len() as int,
                            *file,
                        );
                    }
                    return Err(error);
                },
            }
        }
        Ok(())
    }
}

impl StoryManager {
    /// Load the story that `node` declares, written in `file`.
    pub fn load_story(&mut self, node: EventStatementNode, file: &Option<Url>) -> (res: Result<
        (),
        LifeError,
    >)
        ensures
            final(self)@
                == enter_now(old(self)@, node.spec_record(*file), DUPLICATE_STORY@).registry,
            fails_with(
                res,
                enter_now(old(self)@, node.spec_record(*file), DUPLICATE_STORY@).failure,
            ),
            old(self)@.wf() ==> final(self)@.wf(),
    {
        match node.as_story(file) {
            Ok(item) => self.insert(item),
            Err(error) => Err(error),
        }
    }

    /// The registry after the first `upto` of `events` were loaded in
    /// order, up to the first that is refused, and the failure of that one.
    pub open spec fn spec_load_stories(
        registry: RegistryView,
        events: Seq<EventStatementNode>,
        upto: int,
        file: Option<Url>,
    ) -> Entered
        decreases upto,
    {
        if upto <= 0 {
            Entered { registry, failure: None }
        } else {
            let before = Self::spec_load_stories(registry, events, upto - 1, file);
            if before.failure is Some {
                before
            } else {
                enter_now(before.registry, events[upto - 1].spec_record(file), DUPLICATE_STORY@)
            }
        }
    }

    /// Once a story is refused, the stories after it change nothing.
    pub proof fn lemma_load_stories_stops(
        registry: RegistryView,
        events: Seq<EventStatementNode>,
        short: int,
        long: int,
        file: Option<Url>,
    )
        requires
            short <= long,
            Self::spec_load_stories(registry, events, short, file).failure is Some,
        ensures
            Self::spec_load_stories(registry, events, long, file) == Self::spec_load_stories(
                registry,
                events,
                short,
                file,
            ),
        decreases long - short,
    {
        if short < long {
            Self::lemma_load_stories_stops(registry, events, short, long - 1, file);
        }
    }

    /// Load the stories that `events` declare, written in `file`, in order.
    /// The first that is refused ends the loading.
    pub fn load_stories(&mut self, events: Vec<EventStatementNode>, file: &Option<Url>) -> (res:
        Result<(), LifeError>)
        ensures
            final(self)@ == Self::spec_load_stories(
                old(self)@,
                events@,
                events@.len() as int,
                *file,
            ).registry,
            fails_with(
                res,
                Self::spec_load_stories(old(self)@, events@, events@.len() as int, *file).failure,
            ),
            old(self)@.wf() ==> final(self)@.wf(),
    {
        let ghost all = events@;
        for node in iter: events
            invariant
                iter.seq() == all,
                old(self)@.wf() ==> self@.wf(),
                Self::spec_load_stories(old(self)@, all, iter.index() as int, *file) == (Entered {
                    registry: self@,
                    failure: None,
                }),
        {
            match self.load_story(node, file) {
                Ok(()) => {},
                Err(error) => {
                    proof {
                        Self::lemma_load_stories_stops(
                            old(self)@,
                            all,
                            iter.index() + 1,
                            all.len() as int,
                            *file,
                        );
                    }
                    return Err(error);
                },
            }
        }
        Ok(())
    }
}

} // verus!
