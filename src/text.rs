//! The character classes and string conversions of std that the tokenizer relies on.
use vstd::prelude::*;
use vstd::std_specs::iter::IteratorSpec;

verus! {

/// Whether a character beyond ASCII has the Unicode property Alphabetic, as
/// `char::is_alphabetic` decides it.
pub uninterp spec fn alphabetic_beyond_ascii(c: char) -> bool;

/// Whether a character beyond ASCII is in one of Unicode's numeric general categories, as
/// `char::is_numeric` decides it.
pub uninterp spec fn numeric_beyond_ascii(c: char) -> bool;

/// An ASCII decimal digit.
pub open spec fn ascii_digit(c: char) -> bool {
    '0' <= c && c <= '9'
}

/// An ASCII letter.
pub open spec fn ascii_letter(c: char) -> bool {
    ('a' <= c && c <= 'z') || ('A' <= c && c <= 'Z')
}

/// What `char::is_alphabetic` returns: within ASCII exactly the letters.
pub open spec fn alphabetic(c: char) -> bool {
    if c <= '\x7f' {
        ascii_letter(c)
    } else {
        alphabetic_beyond_ascii(c)
    }
}

/// What `char::is_numeric` returns: within ASCII exactly the decimal digits.
pub open spec fn numeric(c: char) -> bool {
    if c <= '\x7f' {
        ascii_digit(c)
    } else {
        numeric_beyond_ascii(c)
    }
}

/// Relies on `char::is_alphabetic`, which answers ASCII letters by their range and looks any
/// other character up in Unicode's Alphabetic table.
#[verifier::external_body]
pub(crate) fn is_alphabetic(c: char) -> (r: bool)
    ensures
        r == (if c <= '\x7f' {
            ascii_letter(c)
        } else {
            alphabetic_beyond_ascii(c)
        }),
{
    c.is_alphabetic()
}

/// Relies on `char::is_numeric`, which answers ASCII digits by their range and looks any
/// other character up in Unicode's numeric tables.
#[verifier::external_body]
pub(crate) fn is_numeric(c: char) -> (r: bool)
    ensures
        r == (if c <= '\x7f' {
            ascii_digit(c)
        } else {
            numeric_beyond_ascii(c)
        }),
{
    c.is_numeric()
}

/// Relies on `String`'s `FromIterator<char>`: the string holds the characters in order.
#[verifier::external_body]
pub(crate) fn string_of(chars: &Vec<char>) -> (r: String)
    ensures
        r@ == chars@,
{
    chars.iter().collect()
}

/// The characters of `s` in order.
pub(crate) fn chars_of(s: &str) -> (r: Vec<char>)
    ensures
        r@ == s@,
{
    broadcast use vstd::string::axiom_spec_iter, vstd::string::next_postcondition;

    let mut it = s.chars();
    let mut out: Vec<char> = Vec::new();
    loop
        invariant
            it.obeys_prophetic_iter_laws(),
            it.decrease() is Some,
            out@ + it.remaining() == s@,
        ensures
            out@ == s@,
        decreases it.decrease()->0,
    {
        let ghost before = it.remaining();
        match it.next() {
            Some(c) => {
                out.push(c);
                assert(out@ + it.remaining() =~= s@);
            },
            None => {
                assert(out@ + before =~= out@);
                break ;
            },
        }
    }
    out
}

} // verus!
