//! Loading reads what nodes say and nothing else: two sources that say the
//! same are loaded to the same registries and refused with the same
//! failures.

use crate::syntax::nodes::{
    DescriptionStatementNode, EventItemNode, EventStatementNode, IdStatementNode,
    PropertyItemNode, PropertyStatementNode, RootNode, StringItemNode, StringNode,
    TopStatementNode, TraitItemNode, TraitStatementNode,
};
use crate::vm::machine::VmView;
use crate::vm::parser::{body_of, strings_text};
use crate::vm::registry::RegistryView;
use crate::vm::stories::StoryManager;
use crate::vm::talents::TalentManager;
use crate::vm::text::pieces_text;
use url::Url;
use vstd::prelude::*;

verus! {

/// Pieces of a string that say the same stand for the same text.
pub proof fn lemma_pieces_text(mine: Seq<StringItemNode>, theirs: Seq<StringItemNode>, upto: int)
    requires
        mine.len() == theirs.len(),
        forall|at: int| 0 <= at < mine.len() ==> (#[trigger] mine[at]).alike(&theirs[at]),
        upto <= mine.len(),
    ensures
        pieces_text(mine, upto) == pieces_text(theirs, upto),
    decreases upto,
{
    if upto > 0 {
        lemma_pieces_text(mine, theirs, upto - 1);
        assert(mine[upto - 1].alike(&theirs[upto - 1]));
    }
}

/// Strings that say the same stand for the same text.
pub proof fn lemma_string_text(mine: StringNode, theirs: StringNode)
    requires
        mine.alike(&theirs),
    ensures
        mine.spec_text() == theirs.spec_text(),
{
    match (mine, theirs) {
        (StringNode::StringNormal(a), StringNode::StringNormal(b)) => {
            lemma_pieces_text(a.string_item@, b.string_item@, a.string_item@.len() as int);
        },
        _ => {},
    }
}

/// Lists of strings that say the same stand for the same texts.
pub proof fn lemma_strings_text(mine: Seq<StringNode>, theirs: Seq<StringNode>, upto: int)
    requires
        mine.len() == theirs.len(),
        forall|at: int| 0 <= at < mine.len() ==> (#[trigger] mine[at]).alike(&theirs[at]),
        upto <= mine.len(),
    ensures
        strings_text(mine, upto) == strings_text(theirs, upto),
    decreases upto,
{
    if upto > 0 {
        lemma_strings_text(mine, theirs, upto - 1);
        assert(mine[upto - 1].alike(&theirs[upto - 1]));
        lemma_string_text(mine[upto - 1], theirs[upto - 1]);
    }
}

/// Descriptions that say the same have the same lines.
pub proof fn lemma_description_lines(
    mine: DescriptionStatementNode,
    theirs: DescriptionStatementNode,
)
    requires
        mine.alike(&theirs),
    ensures
        mine.spec_lines() == theirs.spec_lines(),
{
    lemma_strings_text(mine.string@, theirs.string@, mine.string@.len() as int);
}

/// Index statements that say the same declare the same index, or fail the
/// same way.
pub proof fn lemma_index_statement(mine: IdStatementNode, theirs: IdStatementNode)
    requires
        mine.alike(&theirs),
    ensures
        mine.spec_as_index() == theirs.spec_as_index(),
{
}

/// Bodies of properties that say the same declare the same.
pub proof fn lemma_property_body(
    mine: Seq<PropertyItemNode>,
    theirs: Seq<PropertyItemNode>,
    upto: int,
)
    requires
        mine.len() == theirs.len(),
        forall|at: int| 0 <= at < mine.len() ==> (#[trigger] mine[at]).alike(&theirs[at]),
        upto <= mine.len(),
    ensures
        body_of(mine, upto) == body_of(theirs, upto),
    decreases upto,
{
    if upto > 0 {
        lemma_property_body(mine, theirs, upto - 1);
        assert(mine[upto - 1].alike(&theirs[upto - 1]));
        match (mine[upto - 1], theirs[upto - 1]) {
            (PropertyItemNode::IdStatement(a), PropertyItemNode::IdStatement(b)) => {
                lemma_index_statement(a, b);
            },
            (
                PropertyItemNode::DescriptionStatement(a),
                PropertyItemNode::DescriptionStatement(b),
            ) => {
                lemma_description_lines(a, b);
            },
            _ => {},
        }
    }
}

/// Bodies of traits that say the same declare the same.
pub proof fn lemma_trait_body(mine: Seq<TraitItemNode>, theirs: Seq<TraitItemNode>, upto: int)
    requires
        mine.len() == theirs.len(),
        forall|at: int| 0 <= at < mine.len() ==> (#[trigger] mine[at]).alike(&theirs[at]),
        upto <= mine.len(),
    ensures
        body_of(mine, upto) == body_of(theirs, upto),
    decreases upto,
{
    if upto > 0 {
        lemma_trait_body(mine, theirs, upto - 1);
        assert(mine[upto - 1].alike(&theirs[upto - 1]));
        match (mine[upto - 1], theirs[upto - 1]) {
            (TraitItemNode::IdStatement(a), TraitItemNode::IdStatement(b)) => {
                lemma_index_statement(a, b);
            },
            (TraitItemNode::DescriptionStatement(a), TraitItemNode::DescriptionStatement(b)) => {
                lemma_description_lines(a, b);
            },
            _ => {},
        }
    }
}

/// Bodies of events that say the same declare the same.
pub proof fn lemma_event_body(mine: Seq<EventItemNode>, theirs: Seq<EventItemNode>, upto: int)
    requires
        mine.len() == theirs.len(),
        forall|at: int| 0 <= at < mine.len() ==> (#[trigger] mine[at]).alike(&theirs[at]),
        upto <= mine.len(),
    ensures
        body_of(mine, upto) == body_of(theirs, upto),
    decreases upto,
{
    if upto > 0 {
        lemma_event_body(mine, theirs, upto - 1);
        assert(mine[upto - 1].alike(&theirs[upto - 1]));
        match (mine[upto - 1], theirs[upto - 1]) {
            (EventItemNode::IdStatement(a), EventItemNode::IdStatement(b)) => {
                lemma_index_statement(a, b);
            },
            (EventItemNode::DescriptionStatement(a), EventItemNode::DescriptionStatement(b)) => {
                lemma_description_lines(a, b);
            },
            _ => {},
        }
    }
}

/// Property statements that say the same declare the same property.
pub proof fn lemma_property_record(
    mine: PropertyStatementNode,
    theirs: PropertyStatementNode,
    file: Option<Url>,
)
    requires
        mine.alike(&theirs),
    ensures
        mine.spec_record(file) == theirs.spec_record(file),
{
    lemma_property_body(
        mine.property_item@,
        theirs.property_item@,
        mine.property_item@.len() as int,
    );
}

/// Trait statements that say the same declare the same talent.
pub proof fn lemma_trait_record(
    mine: TraitStatementNode,
    theirs: TraitStatementNode,
    file: Option<Url>,
)
    requires
        mine.alike(&theirs),
    ensures
        mine.spec_record(file) == theirs.spec_record(file),
{
    lemma_trait_body(mine.trait_item@, theirs.trait_item@, mine.trait_item@.len() as int);
}

/// Event statements that say the same declare the same story.
pub proof fn lemma_event_record(
    mine: EventStatementNode,
    theirs: EventStatementNode,
    file: Option<Url>,
)
    requires
        mine.alike(&theirs),
    ensures
        mine.spec_record(file) == theirs.spec_record(file),
{
    lemma_event_body(mine.event_item@, theirs.event_item@, mine.event_item@.len() as int);
}

/// Groups of traits that say the same are loaded the same.
pub proof fn lemma_load_talents(
    registry: RegistryView,
    mine: Seq<TraitStatementNode>,
    theirs: Seq<TraitStatementNode>,
    upto: int,
    file: Option<Url>,
)
    requires
        mine.len() == theirs.len(),
        forall|at: int| 0 <= at < mine.len() ==> (#[trigger] mine[at]).alike(&theirs[at]),
        upto <= mine.len(),
    ensures
        TalentManager::spec_load_talents(registry, mine, upto, file)
            == TalentManager::spec_load_talents(registry, theirs, upto, file),
    decreases upto,
{
    if upto > 0 {
        lemma_load_talents(registry, mine, theirs, upto - 1, file);
        assert(mine[upto - 1].alike(&theirs[upto - 1]));
        lemma_trait_record(mine[upto - 1], theirs[upto - 1], file);
    }
}

/// Groups of events that say the same are loaded the same.
pub proof fn lemma_load_stories(
    registry: RegistryView,
    mine: Seq<EventStatementNode>,
    theirs: Seq<EventStatementNode>,
    upto: int,
    file: Option<Url>,
)
    requires
        mine.len() == theirs.len(),
        forall|at: int| 0 <= at < mine.len() ==> (#[trigger] mine[at]).alike(&theirs[at]),
        upto <= mine.len(),
    ensures
        StoryManager::spec_load_stories(registry, mine, upto, file)
            == StoryManager::spec_load_stories(registry, theirs, upto, file),
    decreases upto,
{
    if upto > 0 {
        lemma_load_stories(registry, mine, theirs, upto - 1, file);
        assert(mine[upto - 1].alike(&theirs[upto - 1]));
        lemma_event_record(mine[upto - 1], theirs[upto - 1], file);
    }
}

/// Statements that say the same are loaded the same.
pub proof fn lemma_load_statement(
    vm: VmView,
    mine: TopStatementNode,
    theirs: TopStatementNode,
    file: Option<Url>,
)
    requires
        mine.alike(&theirs),
    ensures
        vm.load_statement(mine, file) == vm.load_statement(theirs, file),
{
    match (mine, theirs) {
        (TopStatementNode::PropertyStatement(a), TopStatementNode::PropertyStatement(b)) => {
            lemma_property_record(a, b, file);
        },
        (TopStatementNode::TraitStatement(a), TopStatementNode::TraitStatement(b)) => {
            lemma_trait_record(a, b, file);
        },
        (TopStatementNode::TraitGroup(a), TopStatementNode::TraitGroup(b)) => {
            lemma_load_talents(
                vm.talent,
                a.trait_statement@,
                b.trait_statement@,
                a.trait_statement@.len() as int,
                file,
            );
        },
        (TopStatementNode::EventStatement(a), TopStatementNode::EventStatement(b)) => {
            lemma_event_record(a, b, file);
        },
        (TopStatementNode::EventGroup(a), TopStatementNode::EventGroup(b)) => {
            lemma_load_stories(
                vm.story,
                a.event_statement@,
                b.event_statement@,
                a.event_statement@.len() as int,
                file,
            );
        },
        _ => {},
    }
}

/// Lists of statements that say the same are loaded the same.
pub proof fn lemma_load_statements(
    vm: VmView,
    mine: Seq<TopStatementNode>,
    theirs: Seq<TopStatementNode>,
    upto: int,
    file: Option<Url>,
)
    requires
        mine.len() == theirs.len(),
        forall|at: int| 0 <= at < mine.len() ==> (#[trigger] mine[at]).alike(&theirs[at]),
        upto <= mine.len(),
    ensures
        vm.load_statements(mine, upto, file) == vm.load_statements(theirs, upto, file),
    decreases upto,
{
    if upto > 0 {
        lemma_load_statements(vm, mine, theirs, upto - 1, file);
        assert(mine[upto - 1].alike(&theirs[upto - 1]));
        lemma_load_statement(
            vm.load_statements(mine, upto - 1, file).vm,
            mine[upto - 1],
            theirs[upto - 1],
            file,
        );
    }
}

/// Sources that say the same are loaded to the same registries and refused
/// with the same failure.
pub proof fn lemma_load_alike(vm: VmView, mine: RootNode, theirs: RootNode, file: Option<Url>)
    requires
        mine.alike(&theirs),
    ensures
        vm.load(mine, file) == vm.load(theirs, file),
{
    lemma_load_statements(
        vm,
        mine.top_statement@,
        theirs.top_statement@,
        mine.top_statement@.len() as int,
        file,
    );
}

} // verus!
