//! The model of a declaration, and what a registry asks of the entries it
//! holds.

use crate::errors::{place_of, Place};
use crate::vm::index::Index;
use std::ops::Range;
use url::Url;
use vstd::prelude::*;

verus! {

/// The mathematical model of a declaration: its name, where it was written,
/// its index once it has one, and its description.
pub ghost struct Record {
    pub name: Seq<char>,
    pub file: Option<Url>,
    pub start: nat,
    pub end: nat,
    pub index: Option<Index>,
    pub text: Seq<Seq<char>>,
}

impl Record {
    /// The place of the declaration, which an error cites when the
    /// declaration collides with another.
    pub open spec fn place(self) -> Place {
        Place { file: self.file, start: self.start, end: self.end }
    }

    /// The declaration with its index set to `index` and nothing else
    /// changed.
    pub open spec fn assign(self, index: Index) -> Self {
        Record { index: Some(index), ..self }
    }
}

/// The views of the lines of a description.
pub open spec fn lines(text: Seq<String>) -> Seq<Seq<char>> {
    Seq::new(text.len(), |at: int| text[at]@)
}

/// The lines of a description with one more line.
pub broadcast proof fn lemma_lines_push(text: Seq<String>, line: String)
    ensures
        #[trigger] lines(text.push(line)) == lines(text).push(line@),
{
    assert(lines(text.push(line)) =~= lines(text).push(line@));
}

/// The lines of no description.
pub broadcast proof fn lemma_lines_empty()
    ensures
        #[trigger] lines(Seq::<String>::empty()) == Seq::<Seq<char>>::empty(),
{
    assert(lines(Seq::<String>::empty()) =~= Seq::<Seq<char>>::empty());
}

/// What a registry needs to know of the entries it holds.
pub trait Entry: Sized {
    /// The model of the entry.
    spec fn record(&self) -> Record;

    /// The index the entry carries, if any.
    fn index(&self) -> (index: Option<Index>)
        ensures
            index == self.record().index,
    ;

    /// The file and byte range to cite when the entry collides with another.
    fn place(&self) -> (place: (Option<Url>, Range<usize>))
        ensures
            place_of(place) == self.record().place(),
    ;

    /// The entry with its index set to `index` and nothing else changed.
    fn assign(self, index: Index) -> (entry: Self)
        ensures
            entry.record() == self.record().assign(index),
    ;

    /// A copy of the entry.
    fn copy(&self) -> (entry: Self)
        ensures
            entry.record() == self.record(),
    ;
}

/// The models of the entries of a table.
pub open spec fn table_records<E: Entry>(table: Map<usize, E>) -> Map<usize, Record> {
    Map::new(|key: usize| table.contains_key(key), |key: usize| table[key].record())
}

/// The models of the entries of a buffer.
pub open spec fn buffer_records<E: Entry>(buffer: Seq<E>) -> Seq<Record> {
    Seq::new(buffer.len(), |at: int| buffer[at].record())
}

/// The models of a table with one more entry.
pub broadcast proof fn lemma_table_insert<E: Entry>(table: Map<usize, E>, key: usize, entry: E)
    ensures
        #[trigger] table_records(table.insert(key, entry)) == table_records(table).insert(
            key,
            entry.record(),
        ),
{
    assert(table_records(table.insert(key, entry)) =~= table_records(table).insert(
        key,
        entry.record(),
    ));
}

/// A table and its models have the same keys.
pub broadcast proof fn lemma_table_keys<E: Entry>(table: Map<usize, E>)
    ensures
        #[trigger] table_records(table).dom() == table.dom(),
{
    assert(table_records(table).dom() =~= table.dom());
}

/// The models of a buffer with one more entry.
pub broadcast proof fn lemma_buffer_push<E: Entry>(buffer: Seq<E>, entry: E)
    ensures
        #[trigger] buffer_records(buffer.push(entry)) == buffer_records(buffer).push(
            entry.record(),
        ),
{
    assert(buffer_records(buffer.push(entry)) =~= buffer_records(buffer).push(entry.record()));
}

/// The models of two buffers, one after the other.
pub broadcast proof fn lemma_buffer_concat<E: Entry>(head: Seq<E>, tail: Seq<E>)
    ensures
        #[trigger] buffer_records(head + tail) == buffer_records(head) + buffer_records(tail),
{
    assert(buffer_records(head + tail) =~= buffer_records(head) + buffer_records(tail));
}

/// The models of the entries of a buffer but the first.
pub broadcast proof fn lemma_buffer_drop_first<E: Entry>(buffer: Seq<E>)
    requires
        buffer.len() > 0,
    ensures
        #[trigger] buffer_records(buffer.drop_first()) == buffer_records(buffer).drop_first(),
{
    assert(buffer_records(buffer.drop_first()) =~= buffer_records(buffer).drop_first());
}

pub broadcast group group_records {
    lemma_table_insert,
    lemma_table_keys,
    lemma_buffer_push,
    lemma_buffer_concat,
    lemma_buffer_drop_first,
}

pub broadcast group group_lines {
    lemma_lines_push,
    lemma_lines_empty,
}

} // verus!
