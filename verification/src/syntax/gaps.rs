//! Gaps: texts that are skipped whole as trivia, whatever follows them. A
//! run of white space is one, a block comment is one, a line comment is one
//! where the line ends behind it, and so is one gap after another.

use crate::syntax::chars::line_end;
use crate::syntax::cursor::starts_with;
use crate::syntax::lexical::{block_end, comment_len, run, trivia_len, CharClass};
use crate::syntax::moved::lemma_trivia_moves;
use vstd::prelude::*;

verus! {

/// True when `gap` is one block comment: it opens with `/*`, and the first
/// `*/` behind that ends it.
pub open spec fn is_block_comment(gap: Seq<char>) -> bool {
    starts_with(gap, 0, "/*"@) && block_end(gap, 2) == Some(gap.len() as int)
}

/// True when `gap` is one line comment: it opens with `//` and holds no end
/// of a line.
pub open spec fn is_line_comment(gap: Seq<char>) -> bool {
    starts_with(gap, 0, "//"@) && 2 + run(gap, 2, CharClass::Line) == gap.len()
}

/// A block comment that is closed in a text ends at the same place whatever
/// follows the text.
pub proof fn lemma_block_end_grows(gap: Seq<char>, text: Seq<char>, at: int)
    requires
        0 <= at,
        block_end(gap, at) is Some,
    ensures
        block_end(gap + text, at) == block_end(gap, at),
    decreases gap.len() - at,
{
    reveal_strlit("*/");
    if starts_with(gap, at, "*/"@) {
        assert((gap + text).subrange(at, at + 2) =~= gap.subrange(at, at + 2));
    } else {
        assert(block_end(gap, at + 1) is Some);
        assert(at + 2 <= gap.len()) by {
            if at + 2 > gap.len() {
                assert(!starts_with(gap, at + 1, "*/"@));
                assert(block_end(gap, at + 1) is None);
            }
        }
        assert((gap + text).subrange(at, at + 2) =~= gap.subrange(at, at + 2));
        lemma_block_end_grows(gap, text, at + 1);
    }
}

/// A line comment that reaches the end of a text ends there where the end
/// of a line, or nothing, follows the text.
pub proof fn lemma_line_run_grows(gap: Seq<char>, text: Seq<char>, at: int)
    requires
        0 <= at <= gap.len(),
        at + run(gap, at, CharClass::Line) == gap.len(),
        text.len() == 0 || line_end(text[0]),
    ensures
        run(gap + text, at, CharClass::Line) == gap.len() - at,
    decreases gap.len() - at,
{
    if at < gap.len() {
        assert((gap + text)[at] == gap[at]);
        lemma_line_run_grows(gap, text, at + 1);
    } else if text.len() > 0 {
        assert((gap + text)[at] == text[0]);
    }
}

/// A block comment before a text is skipped with the trivia at the start of
/// the text.
pub proof fn lemma_block_comment_is_skipped(gap: Seq<char>, text: Seq<char>)
    requires
        is_block_comment(gap),
    ensures
        trivia_len(gap + text, 0) == gap.len() + trivia_len(text, 0),
{
    reveal(trivia_len);
    reveal_strlit("/*");
    reveal_strlit("//");
    let longer = gap + text;
    assert(gap.subrange(0, 2)[0] == '/' && gap.subrange(0, 2)[1] == '*');
    assert(longer.subrange(0, 2) =~= gap.subrange(0, 2));
    assert(longer[0] == '/' && longer[1] == '*');
    assert(!starts_with(longer, 0, "//"@)) by {
        if starts_with(longer, 0, "//"@) {
            assert(longer.subrange(0, 2)[1] == '/');
        }
    }
    lemma_block_end_grows(gap, text, 2);
    assert(comment_len(longer, 0) == Some(gap.len()));
    lemma_trivia_moves(gap, text, 0);
}

/// A line comment before a text is skipped with the trivia at the start of
/// the text, where the text starts with the end of the line or is empty.
pub proof fn lemma_line_comment_is_skipped(gap: Seq<char>, text: Seq<char>)
    requires
        is_line_comment(gap),
        text.len() == 0 || line_end(text[0]),
    ensures
        trivia_len(gap + text, 0) == gap.len() + trivia_len(text, 0),
{
    reveal(trivia_len);
    reveal_strlit("//");
    let longer = gap + text;
    assert(gap.subrange(0, 2)[0] == '/');
    assert(longer.subrange(0, 2) =~= gap.subrange(0, 2));
    assert(longer[0] == '/');
    lemma_line_run_grows(gap, text, 2);
    assert(comment_len(longer, 0) == Some(gap.len()));
    lemma_trivia_moves(gap, text, 0);
}

/// One gap after another is a gap: where the first is skipped before the
/// second and the text, and the second before the text, both are skipped
/// before the text.
pub proof fn lemma_gaps_join(first: Seq<char>, second: Seq<char>, text: Seq<char>)
    requires
        trivia_len(first + (second + text), 0) == first.len() + trivia_len(second + text, 0),
        trivia_len(second + text, 0) == second.len() + trivia_len(text, 0),
    ensures
        trivia_len((first + second) + text, 0) == (first + second).len() + trivia_len(text, 0),
{
    assert((first + second) + text =~= first + (second + text));
}

} // verus!
