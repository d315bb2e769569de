//! The registry of talents.

use crate::errors::{fails_with, LifeError};
use crate::vm::identifier::Identifier;
use crate::vm::index::Index;
use crate::vm::record::{group_lines, lemma_lines_push, lines, Entry, Record};
use crate::vm::registry::{Registry, RegistryView};
use std::ops::Range;
use url::Url;
use vstd::prelude::*;

verus! {

/// The message of the error for a talent whose index is taken.
pub const DUPLICATE_TALENT: &'static str = "Duplicate talent id";

/// One talent declaration.
#[derive(Debug)]
pub struct TalentItem {
    /// The name of the declaration and where it was written.
    pub id: Identifier,
    /// The index of the declaration, once it has one.
    pub index: Option<Index>,
    /// The description, one string per line.
    pub text: Vec<String>,
}

impl TalentItem {
    /// A declaration with the given name, no index and no description.
    pub fn new(id: Identifier) -> (item: Self)
        ensures
            item.id == id,
            item.index is None,
            item.text@ == Seq::<String>::empty(),
            item@.text == Seq::<Seq<char>>::empty(),
    {
        broadcast use group_lines;

        Self { id, index: None, text: Vec::new() }
    }
}

impl Default for TalentItem {
    /// A declaration with an empty name, no file, the empty byte range at
    /// the start, no index and no description.
    fn default() -> (item: Self)
        ensures
            item@ == (Record {
                name: Seq::empty(),
                file: None,
                start: 0,
                end: 0,
                index: None,
                text: Seq::empty(),
            }),
            item.text@ == Seq::<String>::empty(),
    {
        broadcast use group_lines;

        Self::new(Identifier::new(String::new(), None, 0, 0))
    }
}

impl Clone for TalentItem {
    /// A copy of the declaration: the same name, index and description.
    fn clone(&self) -> (copy: Self)
        ensures
            copy@ == self@,
            copy.id == self.id,
            copy.index == self.index,
    {
        broadcast use group_lines;

        let mut text: Vec<String> = Vec::new();
        let mut at: usize = 0;
        while at < self.text.len()
            invariant
                at <= self.text@.len(),
                lines(text@) == lines(self.text@.take(at as int)),
            decreases self.text@.len() - at,
        {
            let line = self.text[at].clone();
            proof {
                assert(self.text@.take(at + 1) =~= self.text@.take(at as int).push(
                    self.text@[at as int],
                ));
                lemma_lines_push(text@, line);
                lemma_lines_push(self.text@.take(at as int), self.text@[at as int]);
            }
            text.push(line);
            at = at + 1;
        }
        proof {
            assert(self.text@.take(at as int) =~= self.text@);
        }
        TalentItem { id: self.id.clone(), index: self.index, text }
    }
}

impl View for TalentItem {
    type V = Record;

    open spec fn view(&self) -> Record {
        Record {
            name: self.id.name@,
            file: self.id.file,
            start: self.id.span.start as nat,
            end: self.id.span.end as nat,
            index: self.index,
            text: lines(self.text@),
        }
    }
}

impl Entry for TalentItem {
    open spec fn record(&self) -> Record {
        self@
    }

    fn index(&self) -> (index: Option<Index>) {
        self.index
    }

    fn place(&self) -> (place: (Option<Url>, Range<usize>)) {
        self.id.place()
    }

    fn assign(self, index: Index) -> (entry: Self) {
        TalentItem { id: self.id, index: Some(index), text: self.text }
    }

    fn copy(&self) -> (entry: Self) {
        self.clone()
    }
}

/// The talents of one load session, by index, and those that still wait for
/// an index.
#[derive(Debug)]
pub struct TalentManager {
    registry: Registry<TalentItem>,
}

impl Clone for TalentManager {
    /// A copy of the registry: the same counter and declarations.
    fn clone(&self) -> (copy: Self)
        ensures
            copy@ == self@,
    {
        TalentManager { registry: self.registry.clone() }
    }
}

impl View for TalentManager {
    type V = RegistryView;

    closed spec fn view(&self) -> RegistryView {
        self.registry@
    }
}

impl Default for TalentManager {
    /// An empty registry whose counter stands at one.
    fn default() -> (manager: Self)
        ensures
            manager@ == RegistryView::empty(),
            manager@.wf(),
    {
        TalentManager { registry: Registry::new() }
    }
}

impl TalentManager {
    /// Insert a declaration. One that carries an index is stored under it,
    /// unless the key is occupied: then nothing changes and the error cites
    /// the declaration that holds the key and the one that asked for it. One
    /// that carries no index waits until [`Self::finalize`] gives it one.
    pub fn insert(&mut self, item: TalentItem) -> (res: Result<(), LifeError>)
        ensures
            final(self)@ == old(self)@.enter_later(item@),
            fails_with(res, old(self)@.collision(item@, DUPLICATE_TALENT@)),
            old(self)@.wf() ==> final(self)@.wf(),
    {
        self.registry.insert_later(item, DUPLICATE_TALENT)
    }

    /// Give every waiting declaration an index, oldest first: each takes the
    /// first free key at or after the counter, and the counter moves one past
    /// that key. A declaration for which no key is left keeps waiting.
    pub fn finalize(&mut self)
        ensures
            final(self)@ == old(self)@.resolve(),
            old(self)@.wf() ==> final(self)@.wf(),
    {
        self.registry.resolve()
    }

    /// The declaration stored under `index`, if there is one.
    pub fn get(&self, index: Index) -> (entry: Option<&TalentItem>)
        ensures
            match entry {
                Some(found) => self@.holds(index) && found@ == self@.table[index.get()],
                None => !self@.holds(index),
            },
    {
        self.registry.get(index)
    }

    /// The number of declarations that have an index.
    pub fn len(&self) -> (len: usize)
        ensures
            len == self@.table.len(),
    {
        self.registry.len()
    }

    /// The number of declarations that wait for an index.
    pub fn waiting(&self) -> (len: usize)
        ensures
            len == self@.pending.len(),
    {
        self.registry.waiting()
    }
}

} // verus!
