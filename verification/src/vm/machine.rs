//! The registries of one load session.

use crate::errors::{fails_with, Failure, LifeError};
use crate::syntax::nodes::{RootNode, TopStatementNode};
use crate::syntax::parse_cst::{expected, spec_parse_cst};
use crate::syntax::rule::LifeRestartRule;
use crate::vm::parser::{enter_later, enter_now};
use crate::vm::properties::{PropertyManager, DUPLICATE_PROPERTY};
use crate::vm::registry::RegistryView;
use crate::vm::same::lemma_load_alike;
use crate::vm::stories::{StoryManager, DUPLICATE_STORY};
use crate::vm::talents::{TalentManager, DUPLICATE_TALENT};
use url::Url;
use vstd::prelude::*;

verus! {

/// All data of one load session: the properties, the talents and the
/// stories that were loaded so far.
#[derive(Debug)]
pub struct LifeVM {
    property: PropertyManager,
    talent: TalentManager,
    story: StoryManager,
}

/// The mathematical model of a load session: its three registries.
pub ghost struct VmView {
    pub property: RegistryView,
    pub talent: RegistryView,
    pub story: RegistryView,
}

/// A load session after statements were loaded, and the failure of the
/// statement that was refused, if one was.
pub ghost struct Loaded {
    pub vm: VmView,
    pub failure: Option<Failure>,
}

impl VmView {
    /// The session after every declaration that waits for an automatic
    /// index was given one.
    pub open spec fn settled(self) -> VmView {
        VmView { property: self.property.resolve(), talent: self.talent.resolve(), ..self }
    }

    /// All three registries are well formed.
    pub open spec fn wf(self) -> bool {
        self.property.wf() && self.talent.wf() && self.story.wf()
    }

    /// The session after `statement`, written in `file`, was loaded. A
    /// property or a talent goes to its registry and waits for its automatic
    /// index; a story goes to its registry and has its automatic index
    /// settled at once; a group is loaded member by member, up to the first
    /// that is refused; a statement terminator changes nothing.
    pub open spec fn load_statement(
        self,
        statement: TopStatementNode,
        file: Option<Url>,
    ) -> Loaded {
        match statement {
            TopStatementNode::PropertyStatement(node) => {
                let entered = enter_later(
                    self.property,
                    node.spec_record(file),
                    DUPLICATE_PROPERTY@,
                );
                Loaded {
                    vm: VmView { property: entered.registry, ..self },
                    failure: entered.failure,
                }
            },
            TopStatementNode::TraitStatement(node) => {
                let entered = enter_later(self.talent, node.spec_record(file), DUPLICATE_TALENT@);
                Loaded {
                    vm: VmView { talent: entered.registry, ..self },
                    failure: entered.failure,
                }
            },
            TopStatementNode::TraitGroup(group) => {
                let entered = TalentManager::spec_load_talents(
                    self.talent,
                    group.trait_statement@,
                    group.trait_statement@.len() as int,
                    file,
                );
                Loaded {
                    vm: VmView { talent: entered.registry, ..self },
                    failure: entered.failure,
                }
            },
            TopStatementNode::EventStatement(node) => {
                let entered = enter_now(self.story, node.spec_record(file), DUPLICATE_STORY@);
                Loaded { vm: VmView { story: entered.registry, ..self }, failure: entered.failure }
            },
            TopStatementNode::EventGroup(group) => {
                let entered = StoryManager::spec_load_stories(
                    self.story,
                    group.event_statement@,
                    group.event_statement@.len() as int,
                    file,
                );
                Loaded { vm: VmView { story: entered.registry, ..self }, failure: entered.failure }
            },
            TopStatementNode::Eos(_) => Loaded { vm: self, failure: None },
        }
    }

    /// The session after the first `upto` of `statements`, written in
    /// `file`, were loaded in order, up to the first that is refused. What
    /// was loaded before the refusal stays.
    pub open spec fn load_statements(
        self,
        statements: Seq<TopStatementNode>,
        upto: int,
        file: Option<Url>,
    ) -> Loaded
        decreases upto,
    {
        if upto <= 0 {
            Loaded { vm: self, failure: None }
        } else {
            let before = self.load_statements(statements, upto - 1, file);
            if before.failure is Some {
                before
            } else {
                before.vm.load_statement(statements[upto - 1], file)
            }
        }
    }

    /// The session after the whole source `root`, written in `file`, was
    /// loaded and every declaration that waits for an automatic index was
    /// given one, and the failure of the statement that was refused, if one
    /// was.
    pub open spec fn load(self, root: RootNode, file: Option<Url>) -> Loaded {
        let loaded = self.load_statements(
            root.top_statement@,
            root.top_statement@.len() as int,
            file,
        );
        Loaded { vm: loaded.vm.settled(), failure: loaded.failure }
    }
}

/// Once a statement is refused, the statements after it change nothing.
pub proof fn lemma_load_statements_stops(
    vm: VmView,
    statements: Seq<TopStatementNode>,
    short: int,
    long: int,
    file: Option<Url>,
)
    requires
        short <= long,
        vm.load_statements(statements, short, file).failure is Some,
    ensures
        vm.load_statements(statements, long, file) == vm.load_statements(statements, short, file),
    decreases long - short,
{
    if short < long {
        lemma_load_statements_stops(vm, statements, short, long - 1, file);
    }
}

impl View for LifeVM {
    type V = VmView;

    closed spec fn view(&self) -> VmView {
        VmView { property: self.property@, talent: self.talent@, story: self.story@ }
    }
}

impl Clone for LifeVM {
    /// A copy of the session: the same three registries.
    fn clone(&self) -> (copy: Self)
        ensures
            copy@ == self@,
    {
        LifeVM {
            property: self.property.clone(),
            talent: self.talent.clone(),
            story: self.story.clone(),
        }
    }
}

impl Default for LifeVM {
    /// A fresh load session: three empty registries.
    fn default() -> (vm: Self)
        ensures
            vm@ == (VmView {
                property: RegistryView::empty(),
                talent: RegistryView::empty(),
                story: RegistryView::empty(),
            }),
            vm@.wf(),
    {
        LifeVM {
            property: PropertyManager::default(),
            talent: TalentManager::default(),
            story: StoryManager::default(),
        }
    }
}

impl LifeVM {
    /// The properties that were loaded.
    pub fn property(&self) -> (manager: &PropertyManager)
        ensures
            manager@ == self@.property,
    {
        &self.property
    }

    /// The talents that were loaded.
    pub fn talent(&self) -> (manager: &TalentManager)
        ensures
            manager@ == self@.talent,
    {
        &self.talent
    }

    /// The stories that were loaded.
    pub fn story(&self) -> (manager: &StoryManager)
        ensures
            manager@ == self@.story,
    {
        &self.story
    }

    /// Load one statement, written in `file`.
    pub fn load_statement(&mut self, statement: TopStatementNode, file: &Option<Url>) -> (res:
        Result<(), LifeError>)
        ensures
            final(self)@ == old(self)@.load_statement(statement, *file).vm,
            fails_with(res, old(self)@.load_statement(statement, *file).failure),
            old(self)@.wf() ==> final(self)@.wf(),
    {
        match statement {
            TopStatementNode::PropertyStatement(node) => self.property.load_property(
                node,
                crate::errors::clone_file(file),
            ),
            TopStatementNode::TraitStatement(node) => self.talent.load_talent(node, file),
            TopStatementNode::TraitGroup(group) => self.talent.load_talents(
                group.trait_statement,
                file,
            ),
            TopStatementNode::EventStatement(node) => self.story.load_story(node, file),
            TopStatementNode::EventGroup(group) => self.story.load_stories(
                group.event_statement,
                file,
            ),
            TopStatementNode::Eos(_) => Ok(()),
        }
    }

    /// Load a whole source, written in `file`: its statements in order, up
    /// to the first that is refused, whose error is returned. What was
    /// loaded before stays. At the end, refused or not, every declaration
    /// that waits for an automatic index is given one.
    pub fn load_statements(&mut self, root: RootNode, file: Option<Url>) -> (res: Result<
        (),
        LifeError,
    >)
        ensures
            final(self)@ == old(self)@.load(root, file).vm,
            fails_with(res, old(self)@.load(root, file).failure),
            old(self)@.wf() ==> final(self)@.wf(),
    {
        let ghost all = root.top_statement@;
        let mut res: Result<(), LifeError> = Ok(());
        for statement in iter: root.top_statement
            invariant
                iter.seq() == all,
                old(self)@.wf() ==> self@.wf(),
                res is Ok ==> old(self)@.load_statements(all, iter.index() as int, file)
                    == (Loaded { vm: self@, failure: None }),
                res matches Err(error) ==> old(self)@.load_statements(all, all.len() as int, file)
                    == (Loaded { vm: self@, failure: Some(error@) }),
        {
            if res.is_ok() {
                res = self.load_statement(statement, &file);
                proof {
                    if res is Err {
                        lemma_load_statements_stops(
                            old(self)@,
                            all,
                            iter.index() + 1,
                            all.len() as int,
                            file,
                        );
                    }
                }
            }
        }
        self.property.finalize();
        self.talent.finalize();
        res
    }

    /// Parse `text` as a whole source that comes from no file, and load it.
    /// A text that does not parse changes nothing and is refused with the
    /// error of the parser. Any other text is loaded as its typed form says,
    /// whichever typed form of its tree is taken: they all say the same.
    pub fn load_script(&mut self, text: &str) -> (res: Result<(), LifeError>)
        ensures
            match spec_parse_cst(text@, LifeRestartRule::Root) {
                Ok(tree) => {
                    &&& exists|root: RootNode| #[trigger] root.models(tree)
                    &&& forall|root: RootNode| #[trigger]
                        root.models(tree) ==> {
                            &&& final(self)@ == old(self)@.load(root, None).vm
                            &&& fails_with(res, old(self)@.load(root, None).failure)
                        }
                },
                Err(at) => {
                    &&& final(self)@ == old(self)@
                    &&& res matches Err(error)
                    &&& error.is_syntax(expected(LifeRestartRule::Root), at as int, at as int)
                },
            },
            old(self)@.wf() ==> final(self)@.wf(),
    {
        match RootNode::from_text(text) {
            Ok(root) => {
                let ghost typed = root;
                let res = self.load_statements(root, None);
                proof {
                    let tree = spec_parse_cst(text@, LifeRestartRule::Root)->Ok_0;
                    assert(typed.models(tree));
                    assert forall|other: RootNode| #[trigger] other.models(tree) implies {
                        &&& self@ == old(self)@.load(other, None).vm
                        &&& fails_with(res, old(self)@.load(other, None).failure)
                    } by {
                        RootNode::lemma_one_typed_form(typed, other, tree);
                        lemma_load_alike(old(self)@, typed, other, None);
                    }
                }
                res
            },
            Err(error) => Err(error),
        }
    }
}

} // verus!
