//! Character classes of the Unicode standard, as the standard library decides them.

use vstd::prelude::*;

verus! {

/// Whether `c`, a character above U+007F, has the Unicode property
/// `White_Space`.
pub uninterp spec fn is_whitespace_char(c: char) -> bool;

/// Whether `c`, a character above U+007F, has the Unicode property
/// `Alphabetic`.
pub uninterp spec fn is_alphabetic_char(c: char) -> bool;

/// Whether `c`, a character above U+007F, belongs to one of the Unicode
/// general categories for numbers.
pub uninterp spec fn is_numeric_char(c: char) -> bool;

/// Whether `c` is white space: up to U+007F the space and the characters
/// U+0009 to U+000D, above it what Unicode says.
pub open spec fn white_space(c: char) -> bool {
    if c <= '\x7f' {
        c == ' ' || ('\x09' <= c && c <= '\x0d')
    } else {
        is_whitespace_char(c)
    }
}

/// Whether `c` is alphabetic: up to U+007F the letters `a` to `z` and `A` to
/// `Z`, above it what Unicode says.
pub open spec fn alphabetic(c: char) -> bool {
    if c <= '\x7f' {
        ('a' <= c && c <= 'z') || ('A' <= c && c <= 'Z')
    } else {
        is_alphabetic_char(c)
    }
}

/// Whether `c` is numeric: up to U+007F the digits `0` to `9`, above it
/// what Unicode says.
pub open spec fn numeric(c: char) -> bool {
    if c <= '\x7f' {
        '0' <= c && c <= '9'
    } else {
        is_numeric_char(c)
    }
}

/// `char::is_whitespace` of the standard library. Its source decides the
/// characters up to U+007F by a list, the space and U+0009 to U+000D, and
/// looks the others up in the Unicode table of `White_Space`; the result
/// of that lookup is a function of the character alone, named
/// [`is_whitespace_char`] here.
pub assume_specification[ char::is_whitespace ](c: char) -> (b: bool)
    ensures
        b == (if c <= '\x7f' {
            c == ' ' || ('\x09' <= c && c <= '\x0d')
        } else {
            is_whitespace_char(c)
        }),
        b == white_space(c),
;

/// `char::is_alphabetic` of the standard library. Its source decides the
/// characters up to U+007F by a list, `a` to `z` and `A` to `Z`, and looks
/// the others up in the Unicode table of `Alphabetic`; the result of that
/// lookup is a function of the character alone, named
/// [`is_alphabetic_char`] here.
pub assume_specification[ char::is_alphabetic ](c: char) -> (b: bool)
    ensures
        b == (if c <= '\x7f' {
            ('a' <= c && c <= 'z') || ('A' <= c && c <= 'Z')
        } else {
            is_alphabetic_char(c)
        }),
        b == alphabetic(c),
;

/// `char::is_numeric` of the standard library. Its source decides the
/// characters up to U+007F by a list, `0` to `9`, and looks the others up
/// in the Unicode table of the general categories for numbers; the result
/// of that lookup is a function of the character alone, named
/// [`is_numeric_char`] here.
pub assume_specification[ char::is_numeric ](c: char) -> (b: bool)
    ensures
        b == (if c <= '\x7f' {
            '0' <= c && c <= '9'
        } else {
            is_numeric_char(c)
        }),
        b == numeric(c),
;

/// The characters of `s` that are not white space, in their order.
pub open spec fn without_whitespace(s: Seq<char>) -> Seq<char> {
    s.filter(|c: char| !white_space(c))
}

/// Collects the characters of `s` that are not white space.
pub fn strip_whitespace(s: &str) -> (text: Vec<char>)
    ensures
        text@ == without_whitespace(s@),
{
    let mut text: Vec<char> = Vec::new();
    for c in it: s.chars()
        invariant
            it.seq() == s@,
            text@ == without_whitespace(s@.take(it.index())),
    {
        proof {
            reveal(Seq::filter);
            assert(s@.take(it.index() + 1).drop_last() == s@.take(it.index()));
        }
        if !c.is_whitespace() {
            text.push(c);
        }
    }
    proof {
        assert(s@.take(s@.len() as int) == s@);
    }
    text
}

} // verus!
