//! What the tokens of a declaration mean: the number of an integer and the
//! text of a string.

use crate::errors::{Failure, LifeError, Place};
use crate::syntax::chars::{digit, hex_digit};
use crate::syntax::nodes::{
    EscapedCharacterNode, EscapedUnicodeNode, IdStatementNode, IntegerNode, StringItemNode,
    StringNode, StringNormalNode, StringRawNode,
};
use crate::vm::index::{group_index, Index};
use vstd::prelude::*;
use vstd::utf8::is_scalar;

verus! {

broadcast use group_index;

/// `char::from_u32` gives the character with the code point `value`, or
/// `None` where `value` is no Unicode scalar value.
pub assume_specification[ char::from_u32 ](value: u32) -> (c: Option<char>)
    ensures
        c == if is_scalar(value) {
            Some(value as char)
        } else {
            None::<char>
        },
;

/// The value of a decimal or hexadecimal digit.
pub open spec fn digit_value(c: char) -> nat {
    if '0' <= c <= '9' {
        (c as u32 - '0' as u32) as nat
    } else if 'a' <= c <= 'f' {
        (c as u32 - 'a' as u32 + 10) as nat
    } else if 'A' <= c <= 'F' {
        (c as u32 - 'A' as u32 + 10) as nat
    } else {
        0
    }
}

/// The number that the first `upto` characters of `digits` write in the
/// base `base`.
pub open spec fn number(digits: Seq<char>, base: nat, upto: int) -> nat
    decreases upto,
{
    if upto <= 0 {
        0
    } else {
        number(digits, base, upto - 1) * base + digit_value(digits[upto - 1])
    }
}

/// True when `text` is one decimal digit or more.
pub open spec fn is_decimal(text: Seq<char>) -> bool {
    text.len() > 0 && forall|at: int| 0 <= at < text.len() ==> digit(#[trigger] text[at])
}

/// True when `text` is one hexadecimal digit or more.
pub open spec fn is_hexadecimal(text: Seq<char>) -> bool {
    text.len() > 0 && forall|at: int| 0 <= at < text.len() ==> hex_digit(#[trigger] text[at])
}

/// The message of the error for an index that is no decimal number.
pub const INVALID_DIGIT: &'static str = "invalid digit found in string";

/// The message of the error for an index that does not fit.
pub const NUMBER_TOO_LARGE: &'static str = "number too large to fit in target type";

/// The message of the error for an index of zero.
pub const NUMBER_ZERO: &'static str = "number would be zero for non-zero type";

/// The value of the digit `c` in the base `base`, if it is one.
pub fn digit_of(c: char, base: u32) -> (value: Option<u32>)
    requires
        base == 10 || base == 16,
    ensures
        base == 10 ==> (value is Some <==> digit(c)),
        base == 16 ==> (value is Some <==> hex_digit(c)),
        value matches Some(v) ==> v == digit_value(c) && v < base,
{
    if '0' <= c && c <= '9' {
        Some(c as u32 - '0' as u32)
    } else if base == 16 && 'a' <= c && c <= 'f' {
        Some(c as u32 - 'a' as u32 + 10)
    } else if base == 16 && 'A' <= c && c <= 'F' {
        Some(c as u32 - 'A' as u32 + 10)
    } else {
        None
    }
}

/// What reading a number gave.
pub enum Reading {
    /// The number that the text writes.
    Value(usize),
    /// The text is empty or holds a character that is no digit.
    Malformed,
    /// The number does not fit.
    TooLarge,
}

/// Read `text` as a number in the base `base`, ten or sixteen.
pub fn read_number(text: &str, base: u32) -> (reading: Reading)
    requires
        base == 10 || base == 16,
    ensures
        match reading {
            Reading::Value(value) => {
                &&& if base == 10 {
                    is_decimal(text@)
                } else {
                    is_hexadecimal(text@)
                }
                &&& value == number(text@, base as nat, text@.len() as int)
            },
            Reading::Malformed => if base == 10 {
                !is_decimal(text@)
            } else {
                !is_hexadecimal(text@)
            },
            Reading::TooLarge => {
                &&& if base == 10 {
                    is_decimal(text@)
                } else {
                    is_hexadecimal(text@)
                }
                &&& number(text@, base as nat, text@.len() as int) > usize::MAX
            },
        },
{
    let mut value: usize = 0;
    let mut large = false;
    let mut seen = false;
    for c in it: text.chars()
        invariant
            it.seq() == text@,
            base == 10 || base == 16,
            seen <==> it.index() > 0,
            forall|at: int|
                0 <= at < it.index() ==> if base == 10 {
                    digit(#[trigger] text@[at])
                } else {
                    hex_digit(#[trigger] text@[at])
                },
            !large ==> value == number(text@, base as nat, it.index() as int),
            large ==> number(text@, base as nat, it.index() as int) > usize::MAX,
    {
        let ghost before = number(text@, base as nat, it.index() as int);
        match digit_of(c, base) {
            Some(digit) => {
                if !large {
                    match value.checked_mul(base as usize) {
                        Some(scaled) => match scaled.checked_add(digit as usize) {
                            Some(next) => {
                                value = next;
                            },
                            None => {
                                large = true;
                            },
                        },
                        None => {
                            large = true;
                        },
                    }
                } else {
                    proof {
                        assert(before * (base as nat) >= before) by (nonlinear_arith)
                            requires
                                base >= 1,
                        ;
                    }
                }
            },
            None => {
                return Reading::Malformed;
            },
        }
        seen = true;
    }
    if !seen {
        Reading::Malformed
    } else if large {
        Reading::TooLarge
    } else {
        Reading::Value(value)
    }
}

impl IntegerNode {
    /// The number that the node writes, if it is a decimal number.
    pub open spec fn spec_value(&self) -> Option<nat> {
        if is_decimal(self.text@) {
            Some(number(self.text@, 10, self.text@.len() as int))
        } else {
            None
        }
    }
}

impl IdStatementNode {
    /// The syntax error with the message `message` over the number of the
    /// statement, with no file.
    pub open spec fn refusal(&self, message: Seq<char>) -> Failure {
        Failure::Syntax {
            message,
            place: Place {
                file: None,
                start: self.integer.span.start as nat,
                end: self.integer.span.end as nat,
            },
        }
    }

    /// The index that the statement declares, or why it declares none: the
    /// number is no decimal number, it is zero, or it does not fit.
    pub open spec fn spec_as_index(&self) -> Result<Index, Failure> {
        match self.integer.spec_value() {
            Some(value) => if value == 0 {
                Err(self.refusal(NUMBER_ZERO@))
            } else if value > usize::MAX {
                Err(self.refusal(NUMBER_TOO_LARGE@))
            } else {
                Ok(Index::of(value as usize))
            },
            None => Err(self.refusal(INVALID_DIGIT@)),
        }
    }

    /// The index that the statement declares. It is refused with a syntax
    /// error over the number, with no file, where the number is no decimal
    /// number, where it is zero and where it does not fit.
    pub fn as_index(&self) -> (res: Result<Index, LifeError>)
        ensures
            match self.spec_as_index() {
                Ok(index) => res == Ok::<Index, LifeError>(index),
                Err(failure) => res matches Err(error) && error@ == failure,
            },
    {
        let start = self.integer.span.start;
        let end = self.integer.span.end;
        match read_number(self.integer.text.as_str(), 10) {
            Reading::Value(value) => match Index::new(value) {
                Some(index) => Ok(index),
                None => Err(LifeError::syntax(NUMBER_ZERO, start, end)),
            },
            Reading::Malformed => Err(LifeError::syntax(INVALID_DIGIT, start, end)),
            Reading::TooLarge => Err(LifeError::syntax(NUMBER_TOO_LARGE, start, end)),
        }
    }
}

/// The character that stands for `c` after a backslash.
pub open spec fn escaped(c: char) -> char {
    if c == 'n' {
        '\n'
    } else if c == 'r' {
        '\r'
    } else if c == 't' {
        '\t'
    } else if c == '0' {
        '\0'
    } else {
        c
    }
}

/// The character that stands in for a code point that is no character.
pub const REPLACEMENT: char = '\u{FFFD}';

/// The character with the code point `value`, or the replacement
/// character where there is none.
pub open spec fn scalar(value: nat) -> char {
    if value <= u32::MAX && is_scalar(value as u32) {
        (value as u32) as char
    } else {
        REPLACEMENT
    }
}

impl EscapedCharacterNode {
    /// The text that the escape stands for: the character after the
    /// backslash, or what that character names.
    pub open spec fn spec_text(&self) -> Seq<char> {
        if self.text@.len() >= 2 {
            seq![escaped(self.text@[1])]
        } else {
            Seq::empty()
        }
    }
}

impl EscapedUnicodeNode {
    /// The text that the escape stands for: the character with the code
    /// point that the digits write.
    pub open spec fn spec_text(&self) -> Seq<char> {
        if is_hexadecimal(self.hex.text@) {
            seq![scalar(number(self.hex.text@, 16, self.hex.text@.len() as int))]
        } else {
            seq![REPLACEMENT]
        }
    }
}

impl StringItemNode {
    /// The text that the piece stands for.
    pub open spec fn spec_text(&self) -> Seq<char> {
        match self {
            StringItemNode::EscapedCharacter(node) => node.spec_text(),
            StringItemNode::EscapedUnicode(node) => node.spec_text(),
            StringItemNode::TextAny(node) => node.text@,
        }
    }
}

/// The text of the first `upto` pieces of a string, one after the other.
pub open spec fn pieces_text(items: Seq<StringItemNode>, upto: int) -> Seq<char>
    decreases upto,
{
    if upto <= 0 {
        Seq::empty()
    } else {
        pieces_text(items, upto - 1) + items[upto - 1].spec_text()
    }
}

impl StringNormalNode {
    /// The text that the string stands for: that of its pieces, one after
    /// the other.
    pub open spec fn spec_text(&self) -> Seq<char> {
        pieces_text(self.string_item@, self.string_item@.len() as int)
    }
}

impl StringRawNode {
    /// The text that the string stands for: what is written between the
    /// quotes.
    pub open spec fn spec_text(&self) -> Seq<char> {
        self.string_raw_text.text@
    }
}

impl StringNode {
    /// The text that the string stands for.
    pub open spec fn spec_text(&self) -> Seq<char> {
        match self {
            StringNode::StringNormal(node) => node.spec_text(),
            StringNode::StringRaw(node) => node.spec_text(),
        }
    }

    /// The text that the string stands for. A raw string stands for what is
    /// written between its quotes. In a string between double quotes, a
    /// backslash and `n`, `r`, `t` or `0` stand for a line feed, a carriage
    /// return, a tabulator or the null character; a backslash and any other
    /// character stand for that character; `\u{..}` stands for the character
    /// with that code point, or for the replacement character where there is
    /// none.
    pub fn to_string(&self) -> (text: String)
        ensures
            text@ == self.spec_text(),
    {
        match self {
            StringNode::StringNormal(node) => {
                let mut text = String::new();
                let mut at: usize = 0;
                while at < node.string_item.len()
                    invariant
                        at <= node.string_item@.len(),
                        text@ == pieces_text(node.string_item@, at as int),
                    decreases node.string_item@.len() - at,
                {
                    match &node.string_item[at] {
                        StringItemNode::EscapedCharacter(escape) => {
                            if escape.text.as_str().unicode_len() >= 2 {
                                let c = escape.text.as_str().get_char(1);
                                let c = if c == 'n' {
                                    '\n'
                                } else if c == 'r' {
                                    '\r'
                                } else if c == 't' {
                                    '\t'
                                } else if c == '0' {
                                    '\0'
                                } else {
                                    c
                                };
                                text.push(c);
                                proof {
                                    assert(text@ =~= pieces_text(node.string_item@, at as int)
                                        + seq![c]);
                                }
                            } else {
                                proof {
                                    assert(text@ =~= text@ + Seq::<char>::empty());
                                }
                            }
                        },
                        StringItemNode::EscapedUnicode(escape) => {
                            let c = match read_number(escape.hex.text.as_str(), 16) {
                                Reading::Value(value) => if value <= 0x10FFFF {
                                    match char::from_u32(value as u32) {
                                        Some(c) => c,
                                        None => REPLACEMENT,
                                    }
                                } else {
                                    REPLACEMENT
                                },
                                Reading::Malformed => REPLACEMENT,
                                Reading::TooLarge => REPLACEMENT,
                            };
                            text.push(c);
                            proof {
                                assert(text@ =~= pieces_text(node.string_item@, at as int)
                                    + seq![c]);
                            }
                        },
                        StringItemNode::TextAny(plain) => {
                            text.append(plain.text.as_str());
                        },
                    }
                    at = at + 1;
                }
                text
            },
            StringNode::StringRaw(node) => node.string_raw_text.text.clone(),
        }
    }
}

} // verus!
