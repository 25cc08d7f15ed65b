//! Character classes of the tokenizer, and what the library takes from `std`
//! about characters and strings without proof.

use vstd::prelude::*;

verus! {

/// Whether `c` has the Unicode property `White_Space`: the ASCII controls
/// from the tabulator to the carriage return, the space, the next-line
/// control, the no-break space, the Ogham space mark, the spaces of fixed
/// width from U+2000 to U+200A, the line and the paragraph separator, the
/// narrow no-break space, the medium mathematical space and the ideographic
/// space.
pub open spec fn white_space(c: char) -> bool {
    ||| ('\u{9}' <= c && c <= '\u{d}')
    ||| c == ' '
    ||| c == '\u{85}'
    ||| c == '\u{a0}'
    ||| c == '\u{1680}'
    ||| ('\u{2000}' <= c && c <= '\u{200a}')
    ||| c == '\u{2028}'
    ||| c == '\u{2029}'
    ||| c == '\u{202f}'
    ||| c == '\u{205f}'
    ||| c == '\u{3000}'
}

/// `char::is_whitespace` holds of the characters with the Unicode property
/// `White_Space` and of nothing else.
pub assume_specification[ char::is_whitespace ](c: char) -> (res: bool)
    ensures
        res == white_space(c),
;

/// `char::is_ascii_alphanumeric` holds of the ASCII letters and digits and of
/// nothing else.
pub assume_specification[ char::is_ascii_alphanumeric ](c: &char) -> (res: bool)
    ensures
        res == (('a' <= *c && *c <= 'z') || ('A' <= *c && *c <= 'Z') || ('0' <= *c && *c <= '9')),
;

/// `String::push` appends the character to the end of the string.
pub assume_specification[ String::push ](s: &mut String, ch: char)
    ensures
        final(s)@ == old(s)@.push(ch),
;

/// Identifier characters: ASCII letters, ASCII digits and the underscore.
pub open spec fn ident_char(c: char) -> bool {
    ('a' <= c && c <= 'z') || ('A' <= c && c <= 'Z') || ('0' <= c && c <= '9') || c == '_'
}

/// What may stand in front of a token: whitespace, and the backslash of a
/// line continuation.
pub open spec fn blank_char(c: char) -> bool {
    white_space(c) || c == '\\'
}

/// Whether `c` is an identifier character.
pub fn is_ident(c: char) -> (res: bool)
    ensures
        res == ident_char(c),
{
    c.is_ascii_alphanumeric() || c == '_'
}

/// Whether `c` may stand in front of a token.
pub fn is_blank(c: char) -> (res: bool)
    ensures
        res == blank_char(c),
{
    c.is_whitespace() || c == '\\'
}

/// An identifier character is never blank: it always belongs to a token.
pub proof fn lemma_ident_is_not_blank(c: char)
    requires
        ident_char(c),
    ensures
        !white_space(c),
        !blank_char(c),
{
}

} // verus!
