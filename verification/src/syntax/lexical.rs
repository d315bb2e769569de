//! The lexical rules: identifiers, integers, the bodies of strings, and the
//! trivia between tokens. None of them skips trivia inside its own match.

use crate::syntax::chars::{
    digit, hex_digit, identifier_start, is_digit, is_hex_digit, is_identifier_start, is_line_end,
    line_end, white_space, xid_continue,
};
use crate::syntax::cursor::{
    no_token, starts_with, token, token_at, word_at, Cursor, Match, Outcome, State,
};
use crate::syntax::rule::LifeRestartRule;
use crate::syntax::source::Source;
use vstd::prelude::*;

verus! {

/// The classes of characters that tokens are runs of.
#[derive(Copy, Clone, Debug, PartialEq, Eq, Structural)]
pub enum CharClass {
    /// Characters with the Unicode property White_Space.
    Blank,
    /// Characters with the Unicode property XID_Continue.
    Continue,
    /// The ten decimal digits.
    Digit,
    /// The hexadecimal digits, in either case.
    Hex,
    /// Anything but a single quote.
    Raw,
    /// Anything but a double quote or a backslash.
    Plain,
    /// Anything but a line feed or a carriage return.
    Line,
}

impl CharClass {
    /// True when `c` belongs to the class.
    pub open spec fn holds(self, c: char) -> bool {
        match self {
            CharClass::Blank => white_space(c),
            CharClass::Continue => xid_continue(c),
            CharClass::Digit => digit(c),
            CharClass::Hex => hex_digit(c),
            CharClass::Raw => c != '\'',
            CharClass::Plain => c != '"' && c != '\\',
            CharClass::Line => !line_end(c),
        }
    }

    /// True when `c` belongs to the class.
    pub fn test(self, c: char) -> (yes: bool)
        ensures
            yes == self.holds(c),
    {
        match self {
            CharClass::Blank => c.is_whitespace(),
            CharClass::Continue => unicode_ident::is_xid_continue(c),
            CharClass::Digit => is_digit(c),
            CharClass::Hex => is_hex_digit(c),
            CharClass::Raw => c != '\'',
            CharClass::Plain => c != '"' && c != '\\',
            CharClass::Line => !is_line_end(c),
        }
    }
}

/// The length of the longest run of characters of `class` that starts at
/// index `at`.
pub open spec fn run(text: Seq<char>, at: int, class: CharClass) -> nat
    decreases text.len() - at,
{
    if 0 <= at < text.len() && class.holds(text[at]) {
        1 + run(text, at + 1, class)
    } else {
        0
    }
}

/// A run ends inside the text, holds only characters of its class, and is
/// followed by the end of the text or by a character outside the class.
pub proof fn lemma_run(text: Seq<char>, at: int, class: CharClass)
    requires
        0 <= at <= text.len(),
    ensures
        at + run(text, at, class) <= text.len(),
        forall|k: int| at <= k < at + run(text, at, class) ==> class.holds(#[trigger] text[k]),
        at + run(text, at, class) < text.len() ==> !class.holds(
            text[at + run(text, at, class)],
        ),
    decreases text.len() - at,
{
    if at < text.len() && class.holds(text[at]) {
        lemma_run(text, at + 1, class);
    }
}

/// The index after the longest run of characters of `class` that starts at
/// index `at`.
pub fn run_end(source: &Source, at: usize, class: CharClass) -> (end: usize)
    requires
        at <= source@.len(),
    ensures
        end == at + run(source@, at as int, class),
        at <= end <= source@.len(),
{
    let total = source.len();
    let mut end = at;
    while end < total && class.test(source.get(end))
        invariant
            at <= end <= total == source@.len(),
            at + run(source@, at as int, class) == end + run(source@, end as int, class),
        decreases total - end,
    {
        end = end + 1;
    }
    end
}

/// The length of an identifier at index `at`: an underscore or a character
/// with XID_Start, then the longest run of characters with XID_Continue.
pub open spec fn identifier_len(text: Seq<char>, at: int) -> Option<nat> {
    if 0 <= at < text.len() && identifier_start(text[at]) {
        Some(1 + run(text, at + 1, CharClass::Continue))
    } else {
        None
    }
}

/// The length of an integer at index `at`: a zero alone, or a digit other
/// than zero and the longest run of digits after it. There is no sign and no
/// leading zero.
pub open spec fn integer_len(text: Seq<char>, at: int) -> Option<nat> {
    if 0 <= at < text.len() && text[at] == '0' {
        Some(1)
    } else if 0 <= at < text.len() && digit(text[at]) {
        Some(1 + run(text, at + 1, CharClass::Digit))
    } else {
        None
    }
}

/// The length of the body of a raw string at index `at`: everything up to
/// the next single quote, which may be nothing.
pub open spec fn raw_text_len(text: Seq<char>, at: int) -> Option<nat> {
    Some(run(text, at, CharClass::Raw))
}

/// The length of a piece of plain text inside a double-quoted string at
/// index `at`: the longest run without a double quote or a backslash, which
/// must not be empty.
pub open spec fn plain_text_len(text: Seq<char>, at: int) -> Option<nat> {
    if run(text, at, CharClass::Plain) > 0 {
        Some(run(text, at, CharClass::Plain))
    } else {
        None
    }
}

/// The most hexadecimal digits that a Unicode escape holds.
pub const HEX_MOST: usize = 5;

/// The length of the digits of a Unicode escape at index `at`: the hex
/// digits found there, one at least and five at most.
pub open spec fn hex_len(text: Seq<char>, at: int) -> Option<nat> {
    let found = run(text, at, CharClass::Hex);
    if found == 0 {
        None
    } else if found > HEX_MOST {
        Some(HEX_MOST as nat)
    } else {
        Some(found)
    }
}

/// The length of a one-character escape at index `at`: a backslash and any
/// character but a line feed.
pub open spec fn escape_len(text: Seq<char>, at: int) -> Option<nat> {
    if 0 <= at && at + 1 < text.len() && text[at] == '\\' && text[at + 1] != '\n' {
        Some(2)
    } else {
        None
    }
}

/// The length of a run of white space at index `at`, which must not be
/// empty.
pub open spec fn blank_len(text: Seq<char>, at: int) -> Option<nat> {
    if run(text, at, CharClass::Blank) > 0 {
        Some(run(text, at, CharClass::Blank))
    } else {
        None
    }
}

/// The index after the first `*/` at or after index `at`, if there is one.
pub open spec fn block_end(text: Seq<char>, at: int) -> Option<int>
    decreases text.len() - at,
{
    if starts_with(text, at, "*/"@) {
        Some(at + 2)
    } else if 0 <= at < text.len() {
        block_end(text, at + 1)
    } else {
        None
    }
}

/// The length of a comment at index `at`: two slashes and the rest of the
/// line, or everything from `/*` to the first `*/` after it.
pub open spec fn comment_len(text: Seq<char>, at: int) -> Option<nat> {
    if starts_with(text, at, "//"@) {
        Some(2 + run(text, at + 2, CharClass::Line))
    } else if starts_with(text, at, "/*"@) {
        match block_end(text, at + 2) {
            Some(end) => if end >= at {
                Some((end - at) as nat)
            } else {
                None
            },
            None => None,
        }
    } else {
        None
    }
}

/// The length of one piece of trivia at index `at`: a run of white space or
/// a comment.
pub open spec fn trivia_piece_len(text: Seq<char>, at: int) -> Option<nat> {
    match blank_len(text, at) {
        Some(length) => Some(length),
        None => comment_len(text, at),
    }
}

/// The length of all the trivia at index `at`: pieces of white space and
/// comments, one after the other, as many as there are.
#[verifier::opaque]
pub open spec fn trivia_len(text: Seq<char>, at: int) -> nat
    decreases text.len() - at,
{
    match trivia_piece_len(text, at) {
        Some(length) => if 0 < length && at + length <= text.len() {
            length + trivia_len(text, at + length)
        } else {
            0
        },
        None => 0,
    }
}

impl Cursor {
    /// The cursor after the trivia at its position was skipped. The first
    /// character that is no trivia counts as a place where a match failed.
    pub open spec fn trivia(self, text: Seq<char>) -> Cursor {
        if !self.ok {
            self
        } else {
            let end = self.pos + trivia_len(text, self.pos);
            Cursor { pos: end, ..self.note(end) }
        }
    }
}

/// The result of the rule `Identifier` at index `at`.
#[verifier::opaque]
pub open spec fn spec_identifier(text: Seq<char>, at: int) -> Outcome {
    token(text, LifeRestartRule::Identifier, at, identifier_len(text, at))
}

/// The result of the rule `Integer` at index `at`.
#[verifier::opaque]
pub open spec fn spec_integer(text: Seq<char>, at: int) -> Outcome {
    token(text, LifeRestartRule::Integer, at, integer_len(text, at))
}

/// The result of the rule `StringRawText` at index `at`.
#[verifier::opaque]
pub open spec fn spec_string_raw_text(text: Seq<char>, at: int) -> Outcome {
    token(text, LifeRestartRule::StringRawText, at, raw_text_len(text, at))
}

/// The result of the rule `TextAny` at index `at`.
#[verifier::opaque]
pub open spec fn spec_text_any(text: Seq<char>, at: int) -> Outcome {
    token(text, LifeRestartRule::TextAny, at, plain_text_len(text, at))
}

/// The result of the rule `HEX` at index `at`.
#[verifier::opaque]
pub open spec fn spec_hex(text: Seq<char>, at: int) -> Outcome {
    token(text, LifeRestartRule::HEX, at, hex_len(text, at))
}

/// The result of the rule `EscapedCharacter` at index `at`.
#[verifier::opaque]
pub open spec fn spec_escaped_character(text: Seq<char>, at: int) -> Outcome {
    token(text, LifeRestartRule::EscapedCharacter, at, escape_len(text, at))
}

/// The result of the rule `WhiteSpace` at index `at`.
#[verifier::opaque]
pub open spec fn spec_white_space(text: Seq<char>, at: int) -> Outcome {
    token(text, LifeRestartRule::WhiteSpace, at, blank_len(text, at))
}

/// The result of the rule `Comment` at index `at`.
#[verifier::opaque]
pub open spec fn spec_comment(text: Seq<char>, at: int) -> Outcome {
    token(text, LifeRestartRule::Comment, at, comment_len(text, at))
}

/// A lexical rule builds a node without children.
pub proof fn lemma_lexical_leaf(text: Seq<char>, at: int)
    ensures
        spec_identifier(text, at).tree matches Some(tree) ==> tree.children.len() == 0,
        spec_integer(text, at).tree matches Some(tree) ==> tree.children.len() == 0,
        spec_string_raw_text(text, at).tree matches Some(tree) ==> tree.children.len() == 0,
        spec_text_any(text, at).tree matches Some(tree) ==> tree.children.len() == 0,
        spec_hex(text, at).tree matches Some(tree) ==> tree.children.len() == 0,
        spec_escaped_character(text, at).tree matches Some(tree) ==> tree.children.len() == 0,
        spec_white_space(text, at).tree matches Some(tree) ==> tree.children.len() == 0,
        spec_comment(text, at).tree matches Some(tree) ==> tree.children.len() == 0,
{
    reveal(spec_identifier);
    reveal(spec_integer);
    reveal(spec_string_raw_text);
    reveal(spec_text_any);
    reveal(spec_hex);
    reveal(spec_escaped_character);
    reveal(spec_white_space);
    reveal(spec_comment);
}

/// Match the rule `Identifier` at index `at`.
pub fn parse_identifier(source: &Source, at: usize) -> (found: Match)
    requires
        at <= source@.len(),
    ensures
        found@ == spec_identifier(source@, at as int),
        found@.within(source@, at as int),
        found@.tree is Some ==> found@.end > at,
{
    proof {
        reveal(spec_identifier);
    }
    if at < source.len() && is_identifier_start(source.get(at)) {
        let end = run_end(source, at + 1, CharClass::Continue);
        token_at(source, LifeRestartRule::Identifier, at, end)
    } else {
        no_token(source, LifeRestartRule::Identifier, at)
    }
}

/// Match the rule `Integer` at index `at`.
pub fn parse_integer(source: &Source, at: usize) -> (found: Match)
    requires
        at <= source@.len(),
    ensures
        found@ == spec_integer(source@, at as int),
        found@.within(source@, at as int),
        found@.tree is Some ==> found@.end > at,
{
    proof {
        reveal(spec_integer);
    }
    if at < source.len() && source.get(at) == '0' {
        token_at(source, LifeRestartRule::Integer, at, at + 1)
    } else if at < source.len() && is_digit(source.get(at)) {
        let end = run_end(source, at + 1, CharClass::Digit);
        token_at(source, LifeRestartRule::Integer, at, end)
    } else {
        no_token(source, LifeRestartRule::Integer, at)
    }
}

/// Match the rule `StringRawText` at index `at`.
pub fn parse_string_raw_text(source: &Source, at: usize) -> (found: Match)
    requires
        at <= source@.len(),
    ensures
        found@ == spec_string_raw_text(source@, at as int),
        found@.within(source@, at as int),
        found@.tree is Some,
{
    proof {
        reveal(spec_string_raw_text);
    }
    let end = run_end(source, at, CharClass::Raw);
    token_at(source, LifeRestartRule::StringRawText, at, end)
}

/// Match the rule `TextAny` at index `at`.
pub fn parse_text_any(source: &Source, at: usize) -> (found: Match)
    requires
        at <= source@.len(),
    ensures
        found@ == spec_text_any(source@, at as int),
        found@.within(source@, at as int),
        found@.tree is Some ==> found@.end > at,
{
    proof {
        reveal(spec_text_any);
    }
    let end = run_end(source, at, CharClass::Plain);
    if end > at {
        token_at(source, LifeRestartRule::TextAny, at, end)
    } else {
        no_token(source, LifeRestartRule::TextAny, at)
    }
}

/// Match the rule `HEX` at index `at`.
pub fn parse_hex(source: &Source, at: usize) -> (found: Match)
    requires
        at <= source@.len(),
    ensures
        found@ == spec_hex(source@, at as int),
        found@.within(source@, at as int),
        found@.tree is Some ==> found@.end > at,
{
    proof {
        reveal(spec_hex);
    }
    let end = run_end(source, at, CharClass::Hex);
    if end == at {
        no_token(source, LifeRestartRule::HEX, at)
    } else if end - at > HEX_MOST {
        token_at(source, LifeRestartRule::HEX, at, at + HEX_MOST)
    } else {
        token_at(source, LifeRestartRule::HEX, at, end)
    }
}

/// Match the rule `EscapedCharacter` at index `at`.
pub fn parse_escaped_character(source: &Source, at: usize) -> (found: Match)
    requires
        at <= source@.len(),
    ensures
        found@ == spec_escaped_character(source@, at as int),
        found@.within(source@, at as int),
        found@.tree is Some ==> found@.end > at,
{
    proof {
        reveal(spec_escaped_character);
    }
    let total = source.len();
    if total - at >= 2 && source.get(at) == '\\' && source.get(at + 1) != '\n' {
        token_at(source, LifeRestartRule::EscapedCharacter, at, at + 2)
    } else {
        no_token(source, LifeRestartRule::EscapedCharacter, at)
    }
}

/// Match the rule `WhiteSpace` at index `at`.
pub fn parse_white_space(source: &Source, at: usize) -> (found: Match)
    requires
        at <= source@.len(),
    ensures
        found@ == spec_white_space(source@, at as int),
        found@.within(source@, at as int),
        found@.tree is Some ==> found@.end > at,
{
    proof {
        reveal(spec_white_space);
    }
    let end = run_end(source, at, CharClass::Blank);
    if end > at {
        token_at(source, LifeRestartRule::WhiteSpace, at, end)
    } else {
        no_token(source, LifeRestartRule::WhiteSpace, at)
    }
}

/// The index after the first `*/` at or after index `at`, if there is one.
pub fn find_block_end(source: &Source, at: usize) -> (end: Option<usize>)
    requires
        at <= source@.len(),
    ensures
        match end {
            Some(end) => block_end(source@, at as int) == Some(end as int) && at + 2 <= end
                <= source@.len(),
            None => block_end(source@, at as int) is None,
        },
{
    let total = source.len();
    let mut here = at;
    loop
        invariant
            at <= here <= total == source@.len(),
            block_end(source@, at as int) == block_end(source@, here as int),
        decreases total - here,
    {
        if word_at(source, here, "*/") {
            proof {
                reveal_strlit("*/");
            }
            return Some(here + 2);
        }
        if here == total {
            return None;
        }
        here = here + 1;
    }
}

/// The index after the comment at index `at`, if there is one.
pub fn comment_end(source: &Source, at: usize) -> (end: Option<usize>)
    requires
        at <= source@.len(),
    ensures
        match end {
            Some(end) => comment_len(source@, at as int) == Some((end - at) as nat) && at < end
                <= source@.len(),
            None => comment_len(source@, at as int) is None,
        },
{
    proof {
        reveal_strlit("//");
        reveal_strlit("/*");
    }
    let total = source.len();
    if word_at(source, at, "//") {
        Some(run_end(source, at + 2, CharClass::Line))
    } else if word_at(source, at, "/*") {
        find_block_end(source, at + 2)
    } else {
        None
    }
}

/// Match the rule `Comment` at index `at`.
pub fn parse_comment(source: &Source, at: usize) -> (found: Match)
    requires
        at <= source@.len(),
    ensures
        found@ == spec_comment(source@, at as int),
        found@.within(source@, at as int),
        found@.tree is Some ==> found@.end > at,
{
    proof {
        reveal(spec_comment);
    }
    match comment_end(source, at) {
        Some(end) => token_at(source, LifeRestartRule::Comment, at, end),
        None => no_token(source, LifeRestartRule::Comment, at),
    }
}

/// The index after all the trivia at index `at`.
pub fn trivia_end(source: &Source, at: usize) -> (end: usize)
    requires
        at <= source@.len(),
    ensures
        end == at + trivia_len(source@, at as int),
        at <= end <= source@.len(),
{
    let mut end = at;
    loop
        invariant
            at <= end <= source@.len(),
            at + trivia_len(source@, at as int) == end + trivia_len(source@, end as int),
        decreases source@.len() - end,
    {
        proof {
            reveal(trivia_len);
        }
        let blank = run_end(source, end, CharClass::Blank);
        if blank > end {
            end = blank;
        } else {
            match comment_end(source, end) {
                Some(after) => {
                    end = after;
                },
                None => {
                    return end;
                },
            }
        }
    }
}

impl State {
    /// Skip the trivia at the cursor.
    pub fn trivia(&mut self, source: &Source)
        requires
            old(self)@.pos <= source@.len(),
        ensures
            final(self)@ == old(self)@.trivia(source@),
            old(self)@.pos <= final(self)@.pos <= source@.len(),
    {
        if self.ok {
            let end = trivia_end(source, self.pos);
            self.pos = end;
            self.note(end);
        }
    }
}

} // verus!
