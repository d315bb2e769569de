//! What it means for a match to stand further on in a longer text: every
//! position moves by the characters, and every span by the bytes, of the
//! text that was put before.

use crate::syntax::cst::CstTree;
use crate::syntax::cursor::{starts_with, token, Cursor, Outcome};
use crate::syntax::lexical::{
    blank_len, block_end, comment_len, escape_len, hex_len, identifier_len, integer_len,
    lemma_run, plain_text_len, raw_text_len, run, spec_comment, spec_escaped_character, spec_hex,
    spec_identifier, spec_integer, spec_string_raw_text, spec_text_any, spec_white_space,
    trivia_len, trivia_piece_len, CharClass,
};
use crate::syntax::rule::{LifeRestartRule, Slot};
use crate::syntax::source::{byte_offset, lemma_encode_concat};
use vstd::prelude::*;

verus! {

/// The number of bytes of a text in UTF-8.
pub open spec fn bytes_of(text: Seq<char>) -> nat {
    byte_offset(text, text.len() as int)
}

impl CstTree {
    /// The same tree with every span moved on by `bytes`.
    #[verifier::opaque]
    pub open spec fn moved(self, bytes: nat) -> CstTree
        decreases self,
    {
        CstTree {
            start: self.start + bytes,
            end: self.end + bytes,
            children: Seq::new(
                self.children.len(),
                |at: int|
                    if 0 <= at < self.children.len() {
                        self.children[at].moved(bytes)
                    } else {
                        arbitrary()
                    },
            ),
            ..self
        }
    }
}

/// The same trees with every span moved on by `bytes`.
#[verifier::opaque]
pub open spec fn moved_all(kids: Seq<CstTree>, bytes: nat) -> Seq<CstTree> {
    Seq::new(kids.len(), |at: int| kids[at].moved(bytes))
}

impl Outcome {
    /// The same result `chars` characters and `bytes` bytes further on.
    pub open spec fn moved(self, chars: nat, bytes: nat) -> Outcome {
        Outcome {
            tree: match self.tree {
                Some(tree) => Some(tree.moved(bytes)),
                None => None,
            },
            end: self.end + chars,
            far: self.far + chars,
        }
    }
}

impl Cursor {
    /// The same cursor `chars` characters and `bytes` bytes further on.
    pub open spec fn moved(self, chars: nat, bytes: nat) -> Cursor {
        Cursor {
            ok: self.ok,
            pos: self.pos + chars,
            far: self.far + chars,
            kids: moved_all(self.kids, bytes),
        }
    }
}

/// The children of a moved tree are the moved children.
pub proof fn lemma_moved_children(tree: CstTree, bytes: nat)
    ensures
        tree.moved(bytes).children == moved_all(tree.children, bytes),
        tree.moved(bytes).rule == tree.rule,
        tree.moved(bytes).slot == tree.slot,
        tree.moved(bytes).text == tree.text,
        tree.moved(bytes).start == tree.start + bytes,
        tree.moved(bytes).end == tree.end + bytes,
{
    reveal(CstTree::moved);
    reveal(moved_all);
    assert(tree.moved(bytes).children =~= moved_all(tree.children, bytes));
}

/// No trees, moved, are no trees.
pub proof fn lemma_moved_none(bytes: nat)
    ensures
        moved_all(Seq::<CstTree>::empty(), bytes) == Seq::<CstTree>::empty(),
{
    reveal(moved_all);
    assert(moved_all(Seq::<CstTree>::empty(), bytes) =~= Seq::<CstTree>::empty());
}

/// Moving a tree changes spans and nothing else: the rule, the slot and the
/// text stay, and the children are the moved children.
pub proof fn lemma_moved_is_tree(tree: CstTree, bytes: nat)
    ensures
        tree.moved(bytes) == (CstTree {
            start: tree.start + bytes,
            end: tree.end + bytes,
            children: moved_all(tree.children, bytes),
            ..tree
        }),
{
    lemma_moved_children(tree, bytes);
}

/// Moving and tagging a tree can be done in either order.
pub proof fn lemma_moved_tagged(tree: CstTree, slot: Slot, bytes: nat)
    ensures
        tree.tagged(slot).moved(bytes) == tree.moved(bytes).tagged(slot),
{
    lemma_moved_is_tree(tree, bytes);
    lemma_moved_is_tree(tree.tagged(slot), bytes);
}

/// Byte offsets in a text with `before` put before it lie further on by
/// the bytes of `before`.
pub proof fn lemma_offset_moves(before: Seq<char>, text: Seq<char>, at: int)
    requires
        0 <= at <= text.len(),
    ensures
        byte_offset(before + text, before.len() + at) == bytes_of(before) + byte_offset(text, at),
{
    assert((before + text).take(before.len() + at) =~= before + text.take(at));
    assert(before.take(before.len() as int) =~= before);
    lemma_encode_concat(before, text.take(at));
}

/// A word stands at a position of a text exactly where it stands at the
/// moved position of the longer text.
pub proof fn lemma_starts_with_moves(
    before: Seq<char>,
    text: Seq<char>,
    at: int,
    word: Seq<char>,
)
    requires
        0 <= at,
    ensures
        starts_with(before + text, before.len() + at, word) == starts_with(text, at, word),
{
    if at + word.len() <= text.len() {
        assert((before + text).subrange(before.len() + at, before.len() + at + word.len())
            =~= text.subrange(at, at + word.len()));
    }
}

/// A run is as long at the moved position of the longer text.
pub proof fn lemma_run_moves(before: Seq<char>, text: Seq<char>, at: int, class: CharClass)
    requires
        0 <= at,
    ensures
        run(before + text, before.len() + at, class) == run(text, at, class),
    decreases text.len() - at,
{
    if at < text.len() {
        assert((before + text)[before.len() + at] == text[at]);
        if class.holds(text[at]) {
            lemma_run_moves(before, text, at + 1, class);
        }
    }
}

/// The end of a block comment moves with the text.
pub proof fn lemma_block_end_moves(before: Seq<char>, text: Seq<char>, at: int)
    requires
        0 <= at,
    ensures
        block_end(before + text, before.len() + at) == match block_end(text, at) {
            Some(end) => Some(end + before.len()),
            None => None,
        },
        block_end(text, at) matches Some(end) ==> at + 2 <= end <= text.len(),
    decreases text.len() - at,
{
    lemma_starts_with_moves(before, text, at, "*/"@);
    reveal_strlit("*/");
    if !starts_with(text, at, "*/"@) && at < text.len() {
        lemma_block_end_moves(before, text, at + 1);
    }
}

/// A piece of trivia is as long at the moved position of the longer text,
/// and ends inside the text.
pub proof fn lemma_trivia_piece_moves(before: Seq<char>, text: Seq<char>, at: int)
    requires
        0 <= at <= text.len(),
    ensures
        trivia_piece_len(before + text, before.len() + at) == trivia_piece_len(text, at),
        blank_len(before + text, before.len() + at) == blank_len(text, at),
        comment_len(before + text, before.len() + at) == comment_len(text, at),
        trivia_piece_len(text, at) matches Some(length) ==> at + length <= text.len(),
        blank_len(text, at) matches Some(length) ==> 0 < length && at + length <= text.len(),
        comment_len(text, at) matches Some(length) ==> 0 < length && at + length <= text.len(),
{
    lemma_run_moves(before, text, at, CharClass::Blank);
    lemma_run(text, at, CharClass::Blank);
    lemma_starts_with_moves(before, text, at, "//"@);
    lemma_starts_with_moves(before, text, at, "/*"@);
    reveal_strlit("//");
    reveal_strlit("/*");
    if starts_with(text, at, "//"@) {
        lemma_run_moves(before, text, at + 2, CharClass::Line);
        lemma_run(text, at + 2, CharClass::Line);
    } else if starts_with(text, at, "/*"@) {
        lemma_block_end_moves(before, text, at + 2);
    }
}

/// All the trivia at a position is as long at the moved position of the
/// longer text, and ends inside the text.
pub proof fn lemma_trivia_moves(before: Seq<char>, text: Seq<char>, at: int)
    requires
        0 <= at <= text.len(),
    ensures
        trivia_len(before + text, before.len() + at) == trivia_len(text, at),
        at + trivia_len(text, at) <= text.len(),
    decreases text.len() - at,
{
    reveal(trivia_len);
    lemma_trivia_piece_moves(before, text, at);
    match trivia_piece_len(text, at) {
        Some(length) => {
            if 0 < length && at + length <= text.len() {
                lemma_trivia_moves(before, text, at + length);
            }
        },
        None => {},
    }
}

/// A token of the same length at the moved position of the longer text is
/// the moved token.
pub proof fn lemma_token_moves(
    before: Seq<char>,
    text: Seq<char>,
    rule: LifeRestartRule,
    at: int,
    length: Option<nat>,
)
    requires
        0 <= at <= text.len(),
        length matches Some(length) ==> at + length <= text.len(),
    ensures
        token(before + text, rule, before.len() + at, length) == token(
            text,
            rule,
            at,
            length,
        ).moved(before.len(), bytes_of(before)),
{
    match length {
        Some(length) => {
            lemma_offset_moves(before, text, at);
            lemma_offset_moves(before, text, at + length);
            assert((before + text).subrange(before.len() + at, before.len() + at + length)
                =~= text.subrange(at, at + length));
            let tree = token(text, rule, at, Some(length)).tree->0;
            lemma_moved_is_tree(tree, bytes_of(before));
            lemma_moved_none(bytes_of(before));
        },
        None => {},
    }
}

/// What a lexical rule matches at the moved position of the longer text is
/// the moved match; and a match ends inside the text.
pub proof fn lemma_lexical_moves(before: Seq<char>, text: Seq<char>, at: int)
    requires
        0 <= at <= text.len(),
    ensures
        spec_identifier(before + text, before.len() + at) == spec_identifier(text, at).moved(
            before.len(),
            bytes_of(before),
        ),
        spec_integer(before + text, before.len() + at) == spec_integer(text, at).moved(
            before.len(),
            bytes_of(before),
        ),
        spec_string_raw_text(before + text, before.len() + at) == spec_string_raw_text(
            text,
            at,
        ).moved(before.len(), bytes_of(before)),
        spec_text_any(before + text, before.len() + at) == spec_text_any(text, at).moved(
            before.len(),
            bytes_of(before),
        ),
        spec_hex(before + text, before.len() + at) == spec_hex(text, at).moved(
            before.len(),
            bytes_of(before),
        ),
        spec_escaped_character(before + text, before.len() + at) == spec_escaped_character(
            text,
            at,
        ).moved(before.len(), bytes_of(before)),
        spec_white_space(before + text, before.len() + at) == spec_white_space(text, at).moved(
            before.len(),
            bytes_of(before),
        ),
        spec_comment(before + text, before.len() + at) == spec_comment(text, at).moved(
            before.len(),
            bytes_of(before),
        ),
        spec_identifier(text, at).tree is Some ==> spec_identifier(text, at).end > at,
        spec_integer(text, at).tree is Some ==> spec_integer(text, at).end > at,
        spec_text_any(text, at).tree is Some ==> spec_text_any(text, at).end > at,
        spec_hex(text, at).tree is Some ==> spec_hex(text, at).end > at,
        spec_escaped_character(text, at).tree is Some ==> spec_escaped_character(text, at).end
            > at,
        spec_white_space(text, at).tree is Some ==> spec_white_space(text, at).end > at,
        spec_comment(text, at).tree is Some ==> spec_comment(text, at).end > at,
        spec_identifier(text, at).within(text, at),
        spec_integer(text, at).within(text, at),
        spec_string_raw_text(text, at).within(text, at),
        spec_text_any(text, at).within(text, at),
        spec_hex(text, at).within(text, at),
        spec_escaped_character(text, at).within(text, at),
        spec_white_space(text, at).within(text, at),
        spec_comment(text, at).within(text, at),
{
    reveal(spec_identifier);
    reveal(spec_integer);
    reveal(spec_string_raw_text);
    reveal(spec_text_any);
    reveal(spec_hex);
    reveal(spec_escaped_character);
    reveal(spec_white_space);
    reveal(spec_comment);
    let longer = before + text;
    let there = before.len() + at;
    if at < text.len() {
        assert(longer[there] == text[at]);
    }
    if at + 1 < text.len() {
        assert(longer[there + 1] == text[at + 1]);
    }
    lemma_run_moves(before, text, at, CharClass::Raw);
    lemma_run_moves(before, text, at, CharClass::Plain);
    lemma_run_moves(before, text, at, CharClass::Hex);
    lemma_run(text, at, CharClass::Raw);
    lemma_run(text, at, CharClass::Plain);
    lemma_run(text, at, CharClass::Hex);
    if at < text.len() {
        lemma_run_moves(before, text, at + 1, CharClass::Continue);
        lemma_run_moves(before, text, at + 1, CharClass::Digit);
        lemma_run(text, at + 1, CharClass::Continue);
        lemma_run(text, at + 1, CharClass::Digit);
    }
    lemma_trivia_piece_moves(before, text, at);
    lemma_token_moves(before, text, LifeRestartRule::Identifier, at, identifier_len(text, at));
    lemma_token_moves(before, text, LifeRestartRule::Integer, at, integer_len(text, at));
    lemma_token_moves(before, text, LifeRestartRule::StringRawText, at, raw_text_len(text, at));
    lemma_token_moves(before, text, LifeRestartRule::TextAny, at, plain_text_len(text, at));
    lemma_token_moves(before, text, LifeRestartRule::HEX, at, hex_len(text, at));
    lemma_token_moves(before, text, LifeRestartRule::EscapedCharacter, at, escape_len(text, at));
    lemma_token_moves(before, text, LifeRestartRule::WhiteSpace, at, blank_len(text, at));
    lemma_token_moves(before, text, LifeRestartRule::Comment, at, comment_len(text, at));
}

/// The steps of a rule on a moved cursor in the longer text give the moved
/// cursor: for the start of a rule, a failure that is noted, and a halt.
pub proof fn lemma_plain_steps_move(before: Seq<char>, c: Cursor, far: int)
    ensures
        Cursor::start(c.pos + before.len()) == Cursor::start(c.pos).moved(
            before.len(),
            bytes_of(before),
        ),
        c.moved(before.len(), bytes_of(before)).note(far + before.len()) == c.note(far).moved(
            before.len(),
            bytes_of(before),
        ),
        c.moved(before.len(), bytes_of(before)).halt() == c.halt().moved(
            before.len(),
            bytes_of(before),
        ),
{
    lemma_moved_none(bytes_of(before));
}

/// Asking for a word on a moved cursor in the longer text gives the moved
/// cursor.
pub proof fn lemma_word_moves(before: Seq<char>, text: Seq<char>, c: Cursor, word: Seq<char>)
    requires
        0 <= c.pos,
    ensures
        c.moved(before.len(), bytes_of(before)).word(before + text, word) == c.word(
            text,
            word,
        ).moved(before.len(), bytes_of(before)),
        c.pos <= text.len() ==> c.word(text, word).pos <= text.len(),
        c.pos <= c.word(text, word).pos,
{
    lemma_starts_with_moves(before, text, c.pos, word);
}

/// Skipping trivia on a moved cursor in the longer text gives the moved
/// cursor.
pub proof fn lemma_skip_moves(before: Seq<char>, text: Seq<char>, c: Cursor)
    requires
        0 <= c.pos <= text.len(),
    ensures
        c.moved(before.len(), bytes_of(before)).trivia(before + text) == c.trivia(text).moved(
            before.len(),
            bytes_of(before),
        ),
        c.pos <= c.trivia(text).pos <= text.len(),
{
    lemma_trivia_moves(before, text, c.pos);
}

/// Asking for the end of the text on a moved cursor in the longer text gives
/// the moved cursor.
pub proof fn lemma_end_moves(before: Seq<char>, text: Seq<char>, c: Cursor)
    ensures
        c.moved(before.len(), bytes_of(before)).end_of_input(before + text) == c.end_of_input(
            text,
        ).moved(before.len(), bytes_of(before)),
{
}

/// Taking a moved result on a moved cursor gives the moved cursor, whether
/// the node is attached or dropped.
pub proof fn lemma_attach_moves(before: Seq<char>, c: Cursor, found: Outcome, slot: Slot)
    ensures
        c.moved(before.len(), bytes_of(before)).attach(
            found.moved(before.len(), bytes_of(before)),
            slot,
        ) == c.attach(found, slot).moved(before.len(), bytes_of(before)),
        c.moved(before.len(), bytes_of(before)).pass(found.moved(before.len(), bytes_of(before)))
            == c.pass(found).moved(before.len(), bytes_of(before)),
{
    let bytes = bytes_of(before);
    reveal(moved_all);
    match found.tree {
        Some(tree) => {
            lemma_moved_tagged(tree, slot, bytes);
            assert(moved_all(c.kids.push(tree.tagged(slot)), bytes) =~= moved_all(
                c.kids,
                bytes,
            ).push(tree.moved(bytes).tagged(slot)));
        },
        None => {},
    }
}

/// Taking over a moved group on a moved cursor gives the moved cursor,
/// whether the group has to match or not.
pub proof fn lemma_join_moves(before: Seq<char>, c: Cursor, group: Cursor)
    ensures
        c.moved(before.len(), bytes_of(before)).join(group.moved(before.len(), bytes_of(before)))
            == c.join(group).moved(before.len(), bytes_of(before)),
        c.moved(before.len(), bytes_of(before)).chain(group.moved(before.len(), bytes_of(before)))
            == c.chain(group).moved(before.len(), bytes_of(before)),
        c.moved(before.len(), bytes_of(before)).option(
            group.moved(before.len(), bytes_of(before)),
        ) == c.option(group).moved(before.len(), bytes_of(before)),
{
    let bytes = bytes_of(before);
    reveal(moved_all);
    assert(moved_all(c.kids + group.kids, bytes) =~= moved_all(c.kids, bytes) + moved_all(
        group.kids,
        bytes,
    ));
}

/// Closing a rule on a moved cursor in the longer text gives the moved
/// result.
pub proof fn lemma_finish_moves(
    before: Seq<char>,
    text: Seq<char>,
    c: Cursor,
    rule: LifeRestartRule,
    start: int,
)
    requires
        0 <= start <= c.pos <= text.len(),
    ensures
        c.moved(before.len(), bytes_of(before)).finish(
            before + text,
            rule,
            start + before.len(),
        ) == c.finish(text, rule, start).moved(before.len(), bytes_of(before)),
{
    lemma_offset_moves(before, text, start);
    lemma_offset_moves(before, text, c.pos);
    if c.ok {
        let tree = c.finish(text, rule, start).tree->0;
        lemma_moved_is_tree(tree, bytes_of(before));
    }
}

} // verus!
