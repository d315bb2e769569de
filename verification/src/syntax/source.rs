//! Source text as the parser reads it: one character at a time, each with
//! its byte offset in the UTF-8 text it came from.

use vstd::prelude::*;
use vstd::utf8::{char_is_scalar, encode_scalar, encode_utf8};

verus! {

/// `String::push` appends the given character to the end of the string.
pub assume_specification[ std::string::String::push ](text: &mut std::string::String, c: char)
    ensures
        final(text)@ == old(text)@.push(c),
;

/// The number of bytes of `c` in UTF-8.
pub open spec fn utf8_width(c: char) -> nat {
    encode_scalar(c as u32).len()
}

/// The byte offset of the character at index `at`: the length in UTF-8 of
/// the characters before it. With `at` the number of characters, it is the
/// length of the whole text.
pub open spec fn byte_offset(text: Seq<char>, at: int) -> nat {
    encode_utf8(text.take(at)).len()
}

/// The UTF-8 encoding of a text is the encodings of its parts, one after
/// the other.
pub proof fn lemma_encode_concat(head: Seq<char>, tail: Seq<char>)
    ensures
        encode_utf8(head + tail) == encode_utf8(head) + encode_utf8(tail),
    decreases head.len(),
{
    if head.len() == 0 {
        assert(head + tail =~= tail);
        assert(encode_utf8(head) + encode_utf8(tail) =~= encode_utf8(tail));
    } else {
        lemma_encode_concat(head.drop_first(), tail);
        assert((head + tail).drop_first() =~= head.drop_first() + tail);
        assert(encode_utf8(head + tail) =~= encode_utf8(head) + encode_utf8(tail));
    }
}

/// Byte offsets start at zero, grow by the width of each character, and
/// never pass the length of the whole text.
pub proof fn lemma_byte_offset(text: Seq<char>, at: int)
    requires
        0 <= at <= text.len(),
    ensures
        byte_offset(text, 0) == 0,
        at < text.len() ==> byte_offset(text, at + 1) == byte_offset(text, at) + utf8_width(
            text[at],
        ),
        byte_offset(text, at) <= byte_offset(text, text.len() as int),
        byte_offset(text, text.len() as int) == encode_utf8(text).len(),
{
    assert(text.take(0) =~= Seq::<char>::empty());
    assert(text.take(text.len() as int) =~= text);
    lemma_encode_concat(text.take(at), text.skip(at));
    assert(text.take(at) + text.skip(at) =~= text);
    if at < text.len() {
        let one = seq![text[at]];
        lemma_encode_concat(text.take(at), one);
        assert(text.take(at) + one =~= text.take(at + 1));
        assert(one.drop_first() =~= Seq::<char>::empty());
        assert(encode_utf8(one) =~= encode_scalar(text[at] as u32)) by {
            reveal_with_fuel(encode_utf8, 2);
        }
    }
}

/// The number of bytes of `c` in UTF-8.
pub fn width_of(c: char) -> (width: usize)
    ensures
        width == utf8_width(c),
        1 <= width <= 4,
{
    proof {
        char_is_scalar(c);
    }
    let scalar = c as u32;
    if scalar < 0x80 {
        1
    } else if scalar < 0x800 {
        2
    } else if scalar < 0x10000 {
        3
    } else {
        4
    }
}

/// A source text, held as its characters and their byte offsets.
pub struct Source {
    chars: Vec<char>,
    offsets: Vec<usize>,
}

impl View for Source {
    type V = Seq<char>;

    closed spec fn view(&self) -> Seq<char> {
        self.chars@
    }
}

impl Source {
    /// There is one offset for every character and one for the end, and each
    /// is the byte offset of its character.
    #[verifier::type_invariant]
    spec fn wf(&self) -> bool {
        &&& self.offsets@.len() == self.chars@.len() + 1
        &&& forall|at: int| 0 <= at <= self.chars@.len()
            ==> #[trigger] self.offsets@[at] == byte_offset(self.chars@, at)
    }

    /// Read a text.
    pub fn new(text: &str) -> (source: Self)
        ensures
            source@ == text@,
    {
        let total = text.as_bytes().len();
        let mut chars: Vec<char> = Vec::new();
        let mut offsets: Vec<usize> = Vec::new();
        let mut at: usize = 0;
        offsets.push(at);
        proof {
            lemma_byte_offset(text@, 0);
        }
        for c in it: text.chars()
            invariant
                it.seq() == text@,
                total == encode_utf8(text@).len(),
                chars@ == text@.take(it.index() as int),
                offsets@.len() == it.index() + 1,
                at == byte_offset(text@, it.index() as int),
                forall|k: int| 0 <= k <= it.index()
                    ==> #[trigger] offsets@[k] == byte_offset(text@, k),
        {
            proof {
                lemma_byte_offset(text@, it.index() as int);
                lemma_byte_offset(text@, it.index() + 1);
                assert(text@.take(it.index() as int).push(c) =~= text@.take(it.index() + 1));
            }
            chars.push(c);
            at = at + width_of(c);
            offsets.push(at);
        }
        proof {
            assert(chars@ =~= text@);
            assert forall|k: int| 0 <= k <= chars@.len() implies #[trigger] offsets@[k]
                == byte_offset(chars@, k) by {
            }
        }
        Source { chars, offsets }
    }

    /// The number of characters.
    pub fn len(&self) -> (len: usize)
        ensures
            len == self@.len(),
    {
        self.chars.len()
    }

    /// The character at index `at`.
    pub fn get(&self, at: usize) -> (c: char)
        requires
            at < self@.len(),
        ensures
            c == self@[at as int],
    {
        self.chars[at]
    }

    /// The byte offset of the character at index `at`, or of the end of the
    /// text where `at` is the number of characters.
    pub fn offset(&self, at: usize) -> (offset: usize)
        requires
            at <= self@.len(),
        ensures
            offset == byte_offset(self@, at as int),
    {
        proof {
            use_type_invariant(self);
        }
        self.offsets[at]
    }

    /// The characters from index `from` up to index `to`, as a string.
    pub fn slice(&self, from: usize, to: usize) -> (text: String)
        requires
            from <= to <= self@.len(),
        ensures
            text@ == self@.subrange(from as int, to as int),
    {
        let mut text = String::new();
        let mut at = from;
        while at < to
            invariant
                from <= at <= to <= self.chars@.len(),
                text@ == self.chars@.subrange(from as int, at as int),
            decreases to - at,
        {
            text.push(self.chars[at]);
            at = at + 1;
            proof {
                assert(self.chars@.subrange(from as int, at as int) =~= self.chars@.subrange(
                    from as int,
                    at - 1,
                ).push(self.chars@[at - 1]));
            }
        }
        text
    }
}

} // verus!
