//! The registry of characters.

use crate::errors::{fails_with, LifeError};
use crate::vm::identifier::Identifier;
use crate::vm::index::Index;
use crate::vm::record::{group_lines, lemma_lines_push, lines, Entry, Record};
use crate::vm::registry::{Registry, RegistryView};
use std::ops::Range;
use url::Url;
use vstd::prelude::*;

verus! {

/// The message of the error for a character whose index is taken.
pub const DUPLICATE_CHARACTER: &'static str = "Duplicate character id";

/// One character declaration.
#[derive(Debug)]
pub struct CharacterItem {
    /// The name of the declaration and where it was written.
    pub id: Identifier,
    /// The index of the declaration, once it has one.
    pub index: Option<Index>,
    /// The description, one string per line.
    pub text: Vec<String>,
}

impl CharacterItem {
    /// A declaration with the given name, no index and no description.
    pub fn new(id: Identifier) -> (item: Self)
        ensures
            item.id == id,
            item.index is None,
            item.text@ == Seq::<String>::empty(),
            item@.text == Seq::<Seq<char>>::empty(),
    {
        broadcast use group_lines;

        Self { id, index: None, text: Vec::new() }
    }
}

impl Clone for CharacterItem {
    /// A copy of the declaration: the same name, index and description.
    fn clone(&self) -> (copy: Self)
        ensures
            copy@ == self@,
            copy.id == self.id,
            copy.index == self.index,
    {
        broadcast use group_lines;

        let mut text: Vec<String> = Vec::new();
        let mut at: usize = 0;
        while at < self.text.len()
            invariant
                at <= self.text@.len(),
                lines(text@) == lines(self.text@.take(at as int)),
            decreases self.text@.len() - at,
        {
            let line = self.text[at].clone();
            proof {
                assert(self.text@.take(at + 1) =~= self.text@.take(at as int).push(
                    self.text@[at as int],
                ));
                lemma_lines_push(text@, line);
                lemma_lines_push(self.text@.take(at as int), self.text@[at as int]);
            }
            text.push(line);
            at = at + 1;
        }
        proof {
            assert(self.text@.take(at as int) =~= self.text@);
        }
        CharacterItem { id: self.id.clone(), index: self.index, text }
    }
}

impl View for CharacterItem {
    type V = Record;

    open spec fn view(&self) -> Record {
        Record {
            name: self.id.name@,
            file: self.id.file,
            start: self.id.span.start as nat,
            end: self.id.span.end as nat,
            index: self.index,
            text: lines(self.text@),
        }
    }
}

impl Entry for CharacterItem {
    open spec fn record(&self) -> Record {
        self@
    }

    fn index(&self) -> (index: Option<Index>) {
        self.index
    }

    fn place(&self) -> (place: (Option<Url>, Range<usize>)) {
        self.id.place()
    }

    fn assign(self, index: Index) -> (entry: Self) {
        CharacterItem { id: self.id, index: Some(index), text: self.text }
    }

    fn copy(&self) -> (entry: Self) {
        self.clone()
    }
}

/// The characters of one load session, by index.
#[derive(Debug)]
pub struct CharacterManager {
    registry: Registry<CharacterItem>,
}

impl Clone for CharacterManager {
    /// A copy of the registry: the same counter and declarations.
    fn clone(&self) -> (copy: Self)
        ensures
            copy@ == self@,
    {
        CharacterManager { registry: self.registry.clone() }
    }
}

impl View for CharacterManager {
    type V = RegistryView;

    closed spec fn view(&self) -> RegistryView {
        self.registry@
    }
}

impl Default for CharacterManager {
    /// An empty registry whose counter stands at one.
    fn default() -> (manager: Self)
        ensures
            manager@ == RegistryView::empty(),
            manager@.wf(),
    {
        CharacterManager { registry: Registry::new() }
    }
}

impl CharacterManager {
    /// Insert a declaration. One that carries an index is stored under it,
    /// unless the key is occupied: then nothing changes and the error cites
    /// the declaration that holds the key and the one that asked for it. One
    /// that carries no index is stored under the first free key at or after
    /// the counter, and the counter moves one past that key.
    pub fn insert(&mut self, item: CharacterItem) -> (res: Result<(), LifeError>)
        ensures
            final(self)@ == old(self)@.enter_now(item@),
            fails_with(res, old(self)@.failure_now(item@, DUPLICATE_CHARACTER@)),
            old(self)@.wf() ==> final(self)@.wf(),
    {
        self.registry.insert_now(item, DUPLICATE_CHARACTER)
    }

    /// The declaration stored under `index`, if there is one.
    pub fn get(&self, index: Index) -> (entry: Option<&CharacterItem>)
        ensures
            match entry {
                Some(found) => self@.holds(index) && found@ == self@.table[index.get()],
                None => !self@.holds(index),
            },
    {
        self.registry.get(index)
    }

    /// The number of declarations that have an index.
    pub fn len(&self) -> (len: usize)
        ensures
            len == self@.table.len(),
    {
        self.registry.len()
    }
}

} // verus!
