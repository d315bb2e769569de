//! Places for people to read: lines and columns from byte offsets, and the
//! text of a place.

use crate::syntax::source::{byte_offset, lemma_byte_offset, width_of};
use std::ops::Range;
use url::Url;
use vstd::prelude::*;
use vstd::string::StringExecFns;
use vstd::utf8::encode_utf8;

verus! {

/// The text of a URL: what `Url::as_str` gives for it.
pub uninterp spec fn url_name(url: Url) -> Seq<char>;

/// `Url::as_str` gives the text of the URL, its serialization, which
/// depends on the URL alone. The contract gives that text its name and
/// claims nothing of what it holds.
#[verifier::external_body]
pub(crate) fn url_text(url: &Url) -> (text: String)
    ensures
        text@ == url_name(*url),
{
    url.as_str().to_owned()
}

/// The decimal digit that writes `value`, which is less than ten.
pub open spec fn digit_char(value: nat) -> char {
    ((value + 48) as u32) as char
}

/// The decimal digits that write `value`, without leading zeros; zero is
/// written `0`.
pub open spec fn decimal(value: nat) -> Seq<char>
    decreases value,
{
    if value < 10 {
        seq![digit_char(value)]
    } else {
        decimal(value / 10).push(digit_char(value % 10))
    }
}

/// The text of a number in decimal.
pub fn to_decimal(value: usize) -> (text: String)
    ensures
        text@ == decimal(value as nat),
{
    let mut digits: Vec<char> = Vec::new();
    let mut rest = value;
    // The digits are found from the last to the first.
    while rest >= 10
        invariant
            decimal(value as nat) == decimal(rest as nat) + digits@.reverse(),
        decreases rest,
    {
        let digit = (rest % 10) as u32 + 48;
        let c = match char::from_u32(digit) {
            Some(c) => c,
            None => '0',
        };
        proof {
            vstd::utf8::char_is_scalar(c);
            assert(c == digit_char((rest % 10) as nat));
            let before = digits@;
            assert(before.push(c).reverse() =~= seq![c] + before.reverse());
            assert(decimal((rest / 10) as nat).push(c) + before.reverse() =~= decimal(
                (rest / 10) as nat,
            ) + (seq![c] + before.reverse()));
        }
        digits.push(c);
        rest = rest / 10;
    }
    let first = match char::from_u32(rest as u32 + 48) {
        Some(c) => c,
        None => '0',
    };
    let mut text = String::new();
    text.push(first);
    let mut left = digits.len();
    while left > 0
        invariant
            left <= digits@.len(),
            text@ == seq![first] + digits@.reverse().take(digits@.len() - left),
        decreases left,
    {
        left = left - 1;
        text.push(digits[left]);
        proof {
            let back = digits@.reverse();
            let done = digits@.len() - left;
            assert(back.take(done) =~= back.take(done - 1).push(back[done - 1]));
            assert((seq![first] + back.take(done - 1)).push(digits@[left as int]) =~= seq![first]
                + back.take(done));
        }
    }
    proof {
        assert(digits@.reverse().take(digits@.len() as int) =~= digits@.reverse());
    }
    text
}

/// The line and the column after the characters `before`, both counted from
/// one: a line feed starts a new line, any other character moves one column
/// on.
pub open spec fn line_col(before: Seq<char>) -> (nat, nat)
    decreases before.len(),
{
    if before.len() == 0 {
        (1, 1)
    } else {
        let (line, col) = line_col(before.drop_last());
        if before.last() == '\n' {
            (line + 1, 1)
        } else {
            (line, (col + 1) as nat)
        }
    }
}

/// The number of characters of `text` that stand before the byte offset
/// `offset`: the index of the character that starts there, or the number of
/// all characters where none does.
pub open spec fn chars_before(text: Seq<char>, offset: nat, from: int) -> int
    decreases text.len() - from,
{
    if from < 0 || from >= text.len() || byte_offset(text, from) == offset {
        from
    } else {
        chars_before(text, offset, from + 1)
    }
}

/// A number as a machine holds it: itself, or the largest number there is.
pub open spec fn clipped(value: nat) -> usize {
    if value <= usize::MAX {
        value as usize
    } else {
        usize::MAX
    }
}

/// The line and the column, both counted from one, of the character of
/// `code` that starts at the byte offset `offset`. An offset at which no
/// character starts gives the line and the column after the last
/// character.
pub fn offset_to_line_col(code: &str, offset: usize) -> (position: (usize, usize))
    ensures
        position.0 == clipped(line_col(code@.take(chars_before(code@, offset as nat, 0))).0),
        position.1 == clipped(line_col(code@.take(chars_before(code@, offset as nat, 0))).1),
{
    let total = code.as_bytes().len();
    let mut line: usize = 1;
    let mut col: usize = 1;
    let mut current: usize = 0;
    let mut found = false;
    proof {
        lemma_byte_offset(code@, 0);
        assert(code@.take(0) =~= Seq::<char>::empty());
    }
    for c in it: code.chars()
        invariant
            it.seq() == code@,
            total == encode_utf8(code@).len(),
            !found ==> current == byte_offset(code@, it.index() as int),
            !found ==> chars_before(code@, offset as nat, 0) == chars_before(
                code@,
                offset as nat,
                it.index() as int,
            ),
            !found ==> line == clipped(line_col(code@.take(it.index() as int)).0) && col == clipped(
                line_col(code@.take(it.index() as int)).1,
            ),
            found ==> line == clipped(line_col(code@.take(chars_before(code@, offset as nat, 0))).0)
                && col == clipped(line_col(code@.take(chars_before(code@, offset as nat, 0))).1),
    {
        if !found {
            if current == offset {
                found = true;
            } else {
                proof {
                    lemma_byte_offset(code@, it.index() as int);
                    lemma_byte_offset(code@, it.index() + 1);
                    assert(code@.take(it.index() + 1).drop_last() =~= code@.take(
                        it.index() as int,
                    ));
                }
                if c == '\n' {
                    line = line.saturating_add(1);
                    col = 1;
                } else {
                    col = col.saturating_add(1);
                }
                current = current + width_of(c);
            }
        }
    }
    (line, col)
}

/// A place to show: a file, if one is known, and a byte range in it.
pub struct PositionDisplay<'i> {
    file: &'i Option<Url>,
    span: &'i Range<usize>,
}

impl<'i> PositionDisplay<'i> {
    /// The file of the place.
    pub closed spec fn spec_file(&self) -> Option<Url> {
        *self.file
    }

    /// The byte range of the place.
    pub closed spec fn spec_span(&self) -> Range<usize> {
        *self.span
    }

    /// The place in `file` at `span`.
    pub fn new(file: &'i Option<Url>, span: &'i Range<usize>) -> (place: Self)
        ensures
            place.spec_file() == *file,
            place.spec_span() == *span,
    {
        Self { file, span }
    }

    /// The file of the place.
    pub fn file(&self) -> (file: &'i Option<Url>)
        ensures
            *file == self.spec_file(),
    {
        self.file
    }

    /// The byte range of the place.
    pub fn span(&self) -> (span: &'i Range<usize>)
        ensures
            *span == self.spec_span(),
    {
        self.span
    }

    /// The line and the column at which the place starts in `text`, the
    /// text of its file.
    pub fn locate(&self, text: &str) -> (position: (usize, usize))
        ensures
            position.0 == clipped(
                line_col(
                    text@.take(chars_before(text@, self.spec_span().start as nat, 0)),
                ).0,
            ),
            position.1 == clipped(
                line_col(
                    text@.take(chars_before(text@, self.spec_span().start as nat, 0)),
                ).1,
            ),
    {
        offset_to_line_col(text, self.span.start)
    }

    /// The text of the place where its line and column are not known: the
    /// two ends of the byte range with two dots between them.
    pub fn range_text(&self) -> (text: String)
        ensures
            text@ == decimal(self.spec_span().start as nat) + ".."@ + decimal(
                self.spec_span().end as nat,
            ),
    {
        let mut text = to_decimal(self.span.start);
        text.append("..");
        let end = to_decimal(self.span.end);
        text.append(end.as_str());
        text
    }

    /// The text of the place where it starts at the line and the column
    /// `position` of the file whose name is written `name`: the name, the
    /// line and the column with colons between them.
    pub fn position_text(name: &str, position: (usize, usize)) -> (text: String)
        ensures
            text@ == name@ + ":"@ + decimal(position.0 as nat) + ":"@ + decimal(
                position.1 as nat,
            ),
    {
        let mut text = String::from_str(name);
        text.append(":");
        let line = to_decimal(position.0);
        text.append(line.as_str());
        text.append(":");
        let col = to_decimal(position.1);
        text.append(col.as_str());
        text
    }
}

} // verus!
