//! Positive integers, the keys of every registry.

use vstd::prelude::*;

verus! {

/// A positive integer: the index of a declaration in its registry.
#[derive(Clone, Copy, Debug, PartialEq, Eq, Structural)]
pub struct Index {
    value: usize,
}

impl Index {
    /// The number this index stands for.
    pub closed spec fn spec_get(self) -> usize {
        self.value
    }

    /// The index that stands for `value`.
    pub closed spec fn of(value: usize) -> Self {
        Index { value }
    }

    /// Every index that exists at run time is positive.
    #[verifier::type_invariant]
    spec fn positive(self) -> bool {
        self.value >= 1
    }

    /// The smallest index, one.
    pub fn first() -> (index: Self)
        ensures
            index.get() == 1,
    {
        Index { value: 1 }
    }

    /// The index with the given value, if the value is positive.
    pub fn new(value: usize) -> (index: Option<Self>)
        ensures
            value == 0 <==> index is None,
            index matches Some(i) ==> i.get() == value,
    {
        if value == 0 {
            None
        } else {
            Some(Index { value })
        }
    }

    /// The number this index stands for.
    #[verifier::when_used_as_spec(spec_get)]
    pub fn get(self) -> (value: usize)
        ensures
            value == self.spec_get(),
            value >= 1,
    {
        proof {
            use_type_invariant(&self);
        }
        self.value
    }
}

/// Two indices with the same value are the same index.
pub broadcast proof fn lemma_index_by_value(a: Index, b: Index)
    ensures
        #[trigger] a.spec_get() == #[trigger] b.spec_get() <==> a == b,
{
}

/// `Index::of` and `get` undo each other.
pub broadcast proof fn lemma_index_of(value: usize)
    ensures
        (#[trigger] Index::of(value)).spec_get() == value,
{
}

pub broadcast group group_index {
    lemma_index_by_value,
    lemma_index_of,
}

} // verus!
