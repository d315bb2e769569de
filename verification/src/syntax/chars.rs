//! The character classes of the lexical rules.

use vstd::prelude::*;

verus! {

/// True when `c` has the Unicode property White_Space: the controls from
/// the tabulation to the carriage return, the space, the next-line control,
/// the two no-break spaces, the Ogham space mark, the spaces of fixed
/// width, the separators of lines and of paragraphs, the medium
/// mathematical space and the ideographic space.
pub open spec fn white_space(c: char) -> bool {
    ||| '\u{9}' <= c <= '\u{d}'
    ||| c == ' '
    ||| c == '\u{85}'
    ||| c == '\u{a0}'
    ||| c == '\u{1680}'
    ||| '\u{2000}' <= c <= '\u{200a}'
    ||| c == '\u{2028}'
    ||| c == '\u{2029}'
    ||| c == '\u{202f}'
    ||| c == '\u{205f}'
    ||| c == '\u{3000}'
}

/// True when `c` is one of the 128 characters of ASCII.
pub open spec fn ascii(c: char) -> bool {
    c <= '\u{7f}'
}

/// True when `c` is a letter of ASCII, in either case.
pub open spec fn letter(c: char) -> bool {
    ('a' <= c <= 'z') || ('A' <= c <= 'Z')
}

/// True when `c`, a character beyond ASCII, has the Unicode property
/// XID_Start.
pub uninterp spec fn wide_start(c: char) -> bool;

/// True when `c`, a character beyond ASCII, has the Unicode property
/// XID_Continue.
pub uninterp spec fn wide_continue(c: char) -> bool;

/// True when `c` has the Unicode property XID_Start. In ASCII these are
/// the letters.
pub open spec fn xid_start(c: char) -> bool {
    if ascii(c) {
        letter(c)
    } else {
        wide_start(c)
    }
}

/// True when `c` has the Unicode property XID_Continue. In ASCII these are
/// the letters, the digits and the underscore.
pub open spec fn xid_continue(c: char) -> bool {
    if ascii(c) {
        letter(c) || digit(c) || c == '_'
    } else {
        wide_continue(c)
    }
}

/// `char::is_whitespace` tells whether the character has the Unicode
/// property White_Space, a fixed list of twenty-five characters.
pub assume_specification[ char::is_whitespace ](c: char) -> (white: bool)
    ensures
        white == white_space(c),
;

/// `unicode_ident::is_xid_start` tells whether the character has the Unicode
/// property XID_Start. For a character of ASCII it reads one constant, which
/// holds the letters; beyond ASCII it reads its tables, and the contract
/// only names what they give.
pub assume_specification[ unicode_ident::is_xid_start ](ch: char) -> (start: bool)
    ensures
        start == xid_start(ch),
        !ascii(ch) ==> start == wide_start(ch),
;

/// `unicode_ident::is_xid_continue` tells whether the character has the
/// Unicode property XID_Continue. For a character of ASCII it reads one
/// constant, which holds the letters, the digits and the underscore; beyond
/// ASCII it reads its tables, and the contract only names what they give.
pub assume_specification[ unicode_ident::is_xid_continue ](ch: char) -> (part: bool)
    ensures
        part == xid_continue(ch),
        !ascii(ch) ==> part == wide_continue(ch),
;

/// True when `c` may start an identifier: an underscore or a character
/// with XID_Start.
pub open spec fn identifier_start(c: char) -> bool {
    c == '_' || xid_start(c)
}

/// True when `c` is one of the ten decimal digits.
pub open spec fn digit(c: char) -> bool {
    '0' <= c <= '9'
}

/// True when `c` is a hexadecimal digit in either case.
pub open spec fn hex_digit(c: char) -> bool {
    ('0' <= c <= '9') || ('a' <= c <= 'f') || ('A' <= c <= 'F')
}

/// True when `c` ends a line.
pub open spec fn line_end(c: char) -> bool {
    c == '\n' || c == '\r'
}

/// True when `c` may start an identifier.
pub fn is_identifier_start(c: char) -> (start: bool)
    ensures
        start == identifier_start(c),
{
    c == '_' || unicode_ident::is_xid_start(c)
}

/// True when `c` is one of the ten decimal digits.
pub fn is_digit(c: char) -> (yes: bool)
    ensures
        yes == digit(c),
{
    '0' <= c && c <= '9'
}

/// True when `c` is a hexadecimal digit in either case.
pub fn is_hex_digit(c: char) -> (yes: bool)
    ensures
        yes == hex_digit(c),
{
    ('0' <= c && c <= '9') || ('a' <= c && c <= 'f') || ('A' <= c && c <= 'F')
}

/// True when `c` ends a line.
pub fn is_line_end(c: char) -> (yes: bool)
    ensures
        yes == line_end(c),
{
    c == '\n' || c == '\r'
}

} // verus!
