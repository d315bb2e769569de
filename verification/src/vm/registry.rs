//! The one design behind all four registries: a table from positive integers
//! to entries, a counter for automatic indices, and a buffer of entries that
//! still wait for an index.

use crate::errors::{fails_with, Failure, LifeError};
use crate::vm::index::{group_index, Index};
use crate::vm::record::{buffer_records, group_records, table_records, Entry, Record};
use std::collections::BTreeMap;
use vstd::prelude::*;

verus! {

broadcast use {group_index, group_records};

/// The smallest key at or after `from` that is not in `taken`, or `None` when
/// every key from `from` to the largest one is taken.
pub open spec fn first_free(taken: Set<usize>, from: usize) -> Option<usize>
    decreases usize::MAX - from,
{
    if !taken.contains(from) {
        Some(from)
    } else if from == usize::MAX {
        None
    } else {
        first_free(taken, (from + 1) as usize)
    }
}

/// `first_free` finds a free key at or after `from` below which, down to
/// `from`, every key is taken; it finds none only when all of them are taken.
pub proof fn lemma_first_free(taken: Set<usize>, from: usize)
    ensures
        match first_free(taken, from) {
            Some(key) => {
                &&& from <= key
                &&& !taken.contains(key)
                &&& forall|other: usize| from <= other < key ==> taken.contains(other)
            },
            None => forall|other: usize| from <= other ==> taken.contains(other),
        },
    decreases usize::MAX - from,
{
    if taken.contains(from) && from != usize::MAX {
        lemma_first_free(taken, (from + 1) as usize);
    }
}

/// The counter after the key `key` was handed out: one past it, or the
/// largest integer where there is no next one.
pub open spec fn counter_after(key: usize) -> usize {
    if key == usize::MAX {
        key
    } else {
        (key + 1) as usize
    }
}

/// The message of the error for an entry that no key is left for.
pub const NO_INDEX_LEFT: &'static str = "no index is left";

/// The mathematical model of a registry.
pub ghost struct RegistryView {
    /// Where the search for the next automatic index starts.
    pub next: usize,
    /// The entries that have an index, by index.
    pub table: Map<usize, Record>,
    /// The entries that still wait for an index, oldest first.
    pub pending: Seq<Record>,
}

impl RegistryView {
    /// The registry of a fresh load session.
    pub open spec fn empty() -> Self {
        RegistryView { next: 1, table: Map::empty(), pending: Seq::empty() }
    }

    /// The entries with an index are finitely many, keys are positive,
    /// every stored entry carries the key it is stored under, and no waiting
    /// entry carries an index.
    pub open spec fn wf(self) -> bool {
        &&& self.next >= 1
        &&& self.table.dom().finite()
        &&& forall|key: usize| #[trigger]
            self.table.contains_key(key) ==> key >= 1 && self.table[key].index == Some(
                Index::of(key),
            )
        &&& forall|at: int| 0 <= at < self.pending.len()
            ==> (#[trigger] self.pending[at]).index is None
    }

    /// True when the key of `index` is occupied.
    pub open spec fn holds(self, index: Index) -> bool {
        self.table.contains_key(index.get())
    }

    /// The registry after `item` was stored under the index it carries.
    pub open spec fn store(self, item: Record, index: Index) -> Self {
        RegistryView { table: self.table.insert(index.get(), item), ..self }
    }

    /// The key the next automatic index will be, if there is one left.
    pub open spec fn free_slot(self) -> Option<usize> {
        first_free(self.table.dom(), self.next)
    }

    /// The registry after `item` was given the next automatic index: `item`
    /// sits at the first free key at or after the counter, carrying that
    /// index, and the counter stands one past it.
    pub open spec fn settle(self, item: Record) -> Self
        recommends
            self.free_slot() is Some,
    {
        let key = self.free_slot()->0;
        RegistryView {
            next: counter_after(key),
            table: self.table.insert(key, item.assign(Index::of(key))),
            ..self
        }
    }

    /// The same registry with `pending` as the entries that wait.
    pub open spec fn with_pending(self, pending: Seq<Record>) -> Self {
        RegistryView { pending, ..self }
    }

    /// The registry after `item` joined the entries that wait for an index.
    pub open spec fn defer(self, item: Record) -> Self {
        RegistryView { pending: self.pending.push(item), ..self }
    }

    /// The failure of inserting `item` where it carries an index whose key
    /// is occupied: a duplicate error with the message `message` that cites
    /// the entry that holds the key and `item`.
    pub open spec fn collision(self, item: Record, message: Seq<char>) -> Option<Failure> {
        match item.index {
            Some(index) => if self.holds(index) {
                Some(
                    Failure::Duplicate {
                        message,
                        old: self.table[index.get()].place(),
                        new: item.place(),
                    },
                )
            } else {
                None
            },
            None => None,
        }
    }

    /// The failure of inserting `item` with its index settled at once, if
    /// it fails: a collision, or a runtime error where `item` carries no
    /// index and no key is left.
    pub open spec fn failure_now(self, item: Record, message: Seq<char>) -> Option<Failure> {
        if item.index is None && self.exhausted() {
            Some(Failure::Runtime { message: NO_INDEX_LEFT@ })
        } else {
            self.collision(item, message)
        }
    }

    /// True when an entry that carries no index cannot be placed at once,
    /// because no key at or after the counter is free.
    pub open spec fn exhausted(self) -> bool {
        self.free_slot() is None
    }

    /// The registry after `item` was inserted with its index settled at
    /// once. An entry with an index takes its key unless the key is occupied;
    /// an entry without one takes the first free key at or after the counter.
    /// An entry that is refused changes nothing.
    pub open spec fn enter_now(self, item: Record) -> Self {
        match item.index {
            Some(index) => if self.holds(index) {
                self
            } else {
                self.store(item, index)
            },
            None => if self.exhausted() {
                self
            } else {
                self.settle(item)
            },
        }
    }

    /// The registry after `item` was inserted with automatic indices put
    /// off. An entry with an index takes its key unless the key is occupied;
    /// an entry without one joins the waiting entries.
    pub open spec fn enter_later(self, item: Record) -> Self {
        match item.index {
            Some(index) => if self.holds(index) {
                self
            } else {
                self.store(item, index)
            },
            None => self.defer(item),
        }
    }

    /// The registry after the first `count` of `items` were inserted in
    /// order, each settled at once.
    pub open spec fn after_now(self, items: Seq<Record>, count: nat) -> Self
        decreases count,
    {
        if count == 0 {
            self
        } else {
            self.after_now(items, (count - 1) as nat).enter_now(items[count - 1])
        }
    }

    /// The registry after the first `count` of `items` were inserted in
    /// order, automatic indices put off.
    pub open spec fn after_later(self, items: Seq<Record>, count: nat) -> Self
        decreases count,
    {
        if count == 0 {
            self
        } else {
            self.after_later(items, (count - 1) as nat).enter_later(items[count - 1])
        }
    }

    /// The registry after the waiting entries were given automatic indices,
    /// oldest first. Entries for which no key is left keep waiting.
    pub open spec fn resolve(self) -> Self
        decreases self.pending.len(),
    {
        if self.pending.len() == 0 || self.free_slot() is None {
            self
        } else {
            self.settle(self.pending[0]).with_pending(self.pending.drop_first()).resolve()
        }
    }
}

/// First writer keeps its slot: an insertion never moves, replaces or removes
/// an entry that has a key, whether automatic indices are settled at once or
/// put off.
pub proof fn lemma_insert_keeps_entries(registry: RegistryView, item: Record, key: usize)
    requires
        registry.table.contains_key(key),
    ensures
        registry.enter_now(item).table.contains_key(key),
        registry.enter_now(item).table[key] == registry.table[key],
        registry.enter_later(item).table.contains_key(key),
        registry.enter_later(item).table[key] == registry.table[key],
{
    lemma_first_free(registry.table.dom(), registry.next);
}

/// Giving the waiting entries their indices never moves, replaces or removes
/// an entry that has a key.
pub proof fn lemma_resolve_keeps_entries(registry: RegistryView, key: usize)
    requires
        registry.table.contains_key(key),
    ensures
        registry.resolve().table.contains_key(key),
        registry.resolve().table[key] == registry.table[key],
    decreases registry.pending.len(),
{
    if registry.pending.len() != 0 && registry.free_slot() is Some {
        lemma_first_free(registry.table.dom(), registry.next);
        lemma_resolve_keeps_entries(
            registry.settle(registry.pending[0]).with_pending(registry.pending.drop_first()),
            key,
        );
    }
}

/// Over any sequence of insertions, in any order of indices, an entry that
/// has a key after `from` of them keeps it, with the same content, after
/// `to` of them.
pub proof fn lemma_sequence_keeps_entries(
    registry: RegistryView,
    items: Seq<Record>,
    from: nat,
    to: nat,
    key: usize,
)
    requires
        from <= to <= items.len(),
    ensures
        registry.after_now(items, from).table.contains_key(key) ==> {
            &&& registry.after_now(items, to).table.contains_key(key)
            &&& registry.after_now(items, to).table[key] == registry.after_now(
                items,
                from,
            ).table[key]
        },
        registry.after_later(items, from).table.contains_key(key) ==> {
            &&& registry.after_later(items, to).table.contains_key(key)
            &&& registry.after_later(items, to).table[key] == registry.after_later(
                items,
                from,
            ).table[key]
        },
    decreases to - from,
{
    if from < to {
        let before = (to - 1) as nat;
        lemma_sequence_keeps_entries(registry, items, from, before, key);
        if registry.after_now(items, from).table.contains_key(key) {
            lemma_insert_keeps_entries(
                registry.after_now(items, before),
                items[before as int],
                key,
            );
        }
        if registry.after_later(items, from).table.contains_key(key) {
            lemma_insert_keeps_entries(
                registry.after_later(items, before),
                items[before as int],
                key,
            );
        }
    }
}

/// Every repeated explicit index is reported, where automatic indices are
/// settled at once. Where two entries of a sequence of insertions carry the
/// same index and the earlier one was accepted, the later one is refused
/// with a duplicate error that cites the earlier entry and the later one,
/// and changes nothing.
pub proof fn lemma_repeated_index_now(
    registry: RegistryView,
    items: Seq<Record>,
    first: nat,
    second: nat,
    index: Index,
    message: Seq<char>,
)
    requires
        first < second < items.len(),
        items[first as int].index == Some(index),
        items[second as int].index == Some(index),
        !registry.after_now(items, first).holds(index),
    ensures
        registry.after_now(items, second).failure_now(items[second as int], message) == Some(
            Failure::Duplicate {
                message,
                old: items[first as int].place(),
                new: items[second as int].place(),
            },
        ),
        registry.after_now(items, second + 1) == registry.after_now(items, second),
{
    assert(registry.after_now(items, first + 1) == registry.after_now(items, first).enter_now(
        items[first as int],
    ));
    lemma_sequence_keeps_entries(registry, items, first + 1, second, index.get());
}

/// Every repeated explicit index is reported, where automatic indices are
/// put off. Where two entries of a sequence of insertions carry the same
/// index and the earlier one was accepted, the later one is refused with a
/// duplicate error that cites the earlier entry and the later one, and
/// changes nothing.
pub proof fn lemma_repeated_index_later(
    registry: RegistryView,
    items: Seq<Record>,
    first: nat,
    second: nat,
    index: Index,
    message: Seq<char>,
)
    requires
        first < second < items.len(),
        items[first as int].index == Some(index),
        items[second as int].index == Some(index),
        !registry.after_later(items, first).holds(index),
    ensures
        registry.after_later(items, second).collision(items[second as int], message) == Some(
            Failure::Duplicate {
                message,
                old: items[first as int].place(),
                new: items[second as int].place(),
            },
        ),
        registry.after_later(items, second + 1) == registry.after_later(items, second),
{
    assert(registry.after_later(items, first + 1) == registry.after_later(
        items,
        first,
    ).enter_later(items[first as int]));
    lemma_sequence_keeps_entries(registry, items, first + 1, second, index.get());
}

/// The keys of a registry are pairwise distinct by what they hold: two
/// entries that carry the same index are stored under the same key.
pub proof fn lemma_keys_are_distinct(registry: RegistryView, one: usize, other: usize)
    requires
        registry.wf(),
        registry.table.contains_key(one),
        registry.table.contains_key(other),
        registry.table[one].index == registry.table[other].index,
    ensures
        one == other,
{
}

/// Insertions keep a registry well formed, whatever they insert and in
/// whatever order: keys stay positive, every entry carries the key it is
/// stored under, and waiting entries carry no index.
pub proof fn lemma_sequence_keeps_wf(registry: RegistryView, items: Seq<Record>, count: nat)
    requires
        registry.wf(),
        count <= items.len(),
        forall|at: int|
            0 <= at < items.len() ==> ((#[trigger] items[at]).index matches Some(index)
                ==> index.get() >= 1),
    ensures
        registry.after_now(items, count).wf(),
        registry.after_later(items, count).wf(),
        registry.after_later(items, count).resolve().wf(),
    decreases count,
{
    if count > 0 {
        let before = (count - 1) as nat;
        lemma_sequence_keeps_wf(registry, items, before);
        let item = items[before as int];
        lemma_enter_keeps_wf(registry.after_now(items, before), item);
        lemma_enter_keeps_wf(registry.after_later(items, before), item);
    }
    lemma_resolve_keeps_wf(registry.after_later(items, count));
}

/// One insertion keeps a registry well formed.
pub proof fn lemma_enter_keeps_wf(registry: RegistryView, item: Record)
    requires
        registry.wf(),
        item.index matches Some(index) ==> index.get() >= 1,
    ensures
        registry.enter_now(item).wf(),
        registry.enter_later(item).wf(),
{
    lemma_first_free(registry.table.dom(), registry.next);
    match item.index {
        Some(index) => {
            assert(Index::of(index.get()) == index);
        },
        None => {
            let after = registry.enter_later(item);
            let waiting = after.pending;
            assert forall|at: int| 0 <= at < waiting.len() implies (#[trigger] waiting[at]).index
                is None by {
                if at < registry.pending.len() {
                    assert(registry.pending[at].index is None);
                }
            }
        },
    }
}

/// Giving the waiting entries their indices keeps a registry well formed.
pub proof fn lemma_resolve_keeps_wf(registry: RegistryView)
    requires
        registry.wf(),
    ensures
        registry.resolve().wf(),
    decreases registry.pending.len(),
{
    if registry.pending.len() != 0 && registry.free_slot() is Some {
        lemma_first_free(registry.table.dom(), registry.next);
        let next = registry.settle(registry.pending[0]).with_pending(
            registry.pending.drop_first(),
        );
        assert(registry.pending[0].index is None);
        let waiting = next.pending;
        assert forall|at: int| 0 <= at < waiting.len() implies (#[trigger] waiting[at]).index
            is None by {
            assert(registry.pending[at + 1].index is None);
        }
        lemma_resolve_keeps_wf(next);
    }
}

/// A registry: entries by index, the counter for automatic indices, and the
/// entries that wait for one.
#[derive(Debug)]
pub struct Registry<E> {
    next: Index,
    table: BTreeMap<usize, E>,
    buffer: Vec<E>,
}

impl<E: Entry> View for Registry<E> {
    type V = RegistryView;

    closed spec fn view(&self) -> RegistryView {
        RegistryView {
            next: self.next.get(),
            table: table_records(self.table@),
            pending: buffer_records(self.buffer@),
        }
    }
}

impl<E: Entry + Clone> Clone for Registry<E> {
    /// A copy of the registry: the same counter, entries and waiting
    /// entries.
    fn clone(&self) -> (copy: Self)
        ensures
            copy@ == self@,
    {
        let mut buffer: Vec<E> = Vec::new();
        let mut at: usize = 0;
        while at < self.buffer.len()
            invariant
                at <= self.buffer@.len(),
                buffer_records(buffer@) == buffer_records(self.buffer@.take(at as int)),
            decreases self.buffer@.len() - at,
        {
            let entry = self.buffer[at].copy();
            proof {
                assert(self.buffer@.take(at + 1) =~= self.buffer@.take(at as int).push(
                    self.buffer@[at as int],
                ));
            }
            buffer.push(entry);
            at = at + 1;
        }
        proof {
            assert(self.buffer@.take(at as int) =~= self.buffer@);
        }
        Registry { next: self.next, table: self.table.clone(), buffer }
    }
}

impl<E: Entry> Registry<E> {
    /// An empty registry whose counter stands at one.
    pub fn new() -> (registry: Self)
        ensures
            registry@ == RegistryView::empty(),
            registry@.wf(),
    {
        let registry = Registry {
            next: Index::first(),
            table: BTreeMap::new(),
            buffer: Vec::new(),
        };
        proof {
            assert(registry@.table =~= Map::empty());
            assert(registry@.pending =~= Seq::empty());
        }
        registry
    }

    /// The number of entries that have an index.
    pub fn len(&self) -> (len: usize)
        ensures
            len == self@.table.len(),
    {
        self.table.len()
    }

    /// The number of entries that wait for an index.
    pub fn waiting(&self) -> (len: usize)
        ensures
            len == self@.pending.len(),
    {
        self.buffer.len()
    }

    /// The entry stored under `index`, if the key is occupied.
    pub fn get(&self, index: Index) -> (entry: Option<&E>)
        ensures
            match entry {
                Some(found) => self@.holds(index) && found.record() == self@.table[index.get()],
                None => !self@.holds(index),
            },
    {
        let key = index.get();
        self.table.get(&key)
    }

    /// Store `item` under `index`, unless the key is occupied: then nothing
    /// changes and the error cites the entry that holds the key and `item`.
    pub fn claim(&mut self, item: E, index: Index, message: &str) -> (res: Result<(), LifeError>)
        ensures
            final(self)@ == if old(self)@.holds(index) {
                old(self)@
            } else {
                old(self)@.store(item.record(), index)
            },
            fails_with(
                res,
                if old(self)@.holds(index) {
                    Some(
                        Failure::Duplicate {
                            message: message@,
                            old: old(self)@.table[index.get()].place(),
                            new: item.record().place(),
                        },
                    )
                } else {
                    None
                },
            ),
            old(self)@.wf() && item.record().index == Some(index) ==> final(self)@.wf(),
    {
        let key = index.get();
        match self.table.get(&key) {
            Some(holder) => Err(LifeError::duplicate(message, holder.place(), item.place())),
            None => {
                self.table.insert(key, item);
                Ok(())
            },
        }
    }

    /// The first free key at or after the counter, if there is one.
    pub fn find_free(&self) -> (slot: Option<usize>)
        ensures
            slot == self@.free_slot(),
    {
        let mut key: usize = self.next.get();
        loop
            invariant
                first_free(self.table@.dom(), key) == first_free(
                    self.table@.dom(),
                    self.next.get(),
                ),
            decreases usize::MAX - key,
        {
            if !self.table.contains_key(&key) {
                return Some(key);
            }
            if key == usize::MAX {
                return None;
            }
            key = key + 1;
        }
    }

    /// Give `item` the next automatic index and store it there. Where no key
    /// is left, nothing changes and `item` comes back.
    pub fn settle(&mut self, item: E) -> (res: Result<(), E>)
        ensures
            match old(self)@.free_slot() {
                Some(_) => res is Ok && final(self)@ == old(self)@.settle(item.record()),
                None => res == Err::<(), E>(item) && final(self)@ == old(self)@,
            },
            old(self)@.wf() ==> final(self)@.wf(),
    {
        match self.find_free() {
            Some(key) => {
                let floor = self.next.get();
                proof {
                    lemma_first_free(self.table@.dom(), floor);
                }
                let after = if key == usize::MAX {
                    key
                } else {
                    key + 1
                };
                match (Index::new(key), Index::new(after)) {
                    (Some(index), Some(next)) => {
                        self.table.insert(key, item.assign(index));
                        self.next = next;
                        Ok(())
                    },
                    _ => Err(item),
                }
            },
            None => Err(item),
        }
    }

    /// Let `item` wait for an automatic index.
    pub fn defer(&mut self, item: E)
        ensures
            final(self)@ == old(self)@.defer(item.record()),
            old(self)@.wf() && item.record().index is None ==> final(self)@.wf(),
    {
        self.buffer.push(item);
    }

    /// Insert `item` and settle its index at once. An entry with an index is
    /// refused with a duplicate error where its key is occupied; an entry
    /// without one is refused with a runtime error where no key is left.
    pub fn insert_now(&mut self, item: E, message: &str) -> (res: Result<(), LifeError>)
        ensures
            final(self)@ == old(self)@.enter_now(item.record()),
            fails_with(res, old(self)@.failure_now(item.record(), message@)),
            old(self)@.wf() ==> final(self)@.wf(),
    {
        match item.index() {
            Some(index) => self.claim(item, index, message),
            None => match self.settle(item) {
                Ok(()) => Ok(()),
                Err(_) => Err(LifeError::runtime(NO_INDEX_LEFT)),
            },
        }
    }

    /// Insert `item` and put its automatic index off. An entry with an index
    /// is refused with a duplicate error where its key is occupied; an entry
    /// without one waits.
    pub fn insert_later(&mut self, item: E, message: &str) -> (res: Result<(), LifeError>)
        ensures
            final(self)@ == old(self)@.enter_later(item.record()),
            fails_with(res, old(self)@.collision(item.record(), message@)),
            old(self)@.wf() ==> final(self)@.wf(),
    {
        match item.index() {
            Some(index) => self.claim(item, index, message),
            None => {
                self.defer(item);
                Ok(())
            },
        }
    }

    /// Give the waiting entries automatic indices, oldest first. Entries for
    /// which no key is left keep waiting.
    pub fn resolve(&mut self)
        ensures
            final(self)@ == old(self)@.resolve(),
            old(self)@.wf() ==> final(self)@.wf(),
    {
        let mut waiting: Vec<E> = Vec::new();
        std::mem::swap(&mut waiting, &mut self.buffer);
        let ghost start = old(self)@;
        let ghost mut rest = waiting@;
        let mut left: Vec<E> = Vec::new();
        let mut stuck = false;
        proof {
            assert(Seq::<E>::empty() + rest =~= rest);
        }
        for item in iter: waiting
            invariant
                self@.pending.len() == 0,
                rest == iter.seq().skip(iter.index() as int),
                rest.len() == iter.seq().len() - iter.index(),
                stuck ==> self@.free_slot() is None,
                !stuck ==> left@.len() == 0,
                start.resolve() == self@.with_pending(buffer_records(left@ + rest)).resolve(),
                start.wf() ==> self@.with_pending(buffer_records(left@ + rest)).wf(),
        {
            let ghost before = self@.with_pending(buffer_records(left@ + rest));
            let ghost queue = left@ + rest;
            proof {
                rest = rest.drop_first();
                assert(rest =~= iter.seq().skip(iter.index() + 1));
                assert(queue[left@.len() as int] == item);
            }
            if stuck {
                left.push(item);
                assert(left@ + rest =~= queue);
            } else {
                assert(queue.drop_first() =~= rest);
                assert(before.pending[0] == item.record());
                match self.settle(item) {
                    Ok(()) => {
                        assert(left@ + rest =~= queue.drop_first());
                    },
                    Err(item) => {
                        stuck = true;
                        left.push(item);
                        assert(left@ + rest =~= queue);
                    },
                }
            }
        }
        proof {
            assert(left@ + rest =~= left@);
        }
        self.buffer = left;
    }
}

} // verus!
