//! Small helpers on strings: borrowing and copying copy-on-write text, and
//! reading a string as a vector of characters.

use std::borrow::Cow;
use std::str::Chars;
use vstd::prelude::*;
use vstd::std_specs::iter::IteratorSpec;

verus! {

/// `String::push` appends one character to the end of the string and leaves
/// what was there in place.
pub assume_specification[ String::push ](s: &mut String, ch: char)
    ensures
        final(s)@ == old(s)@.push(ch),
;

/// Equality of string slices, `<str as PartialEq>::eq`, compares contents:
/// two slices are equal exactly when they hold the same characters.
pub assume_specification[ <str as PartialEq>::eq ](a: &str, b: &str) -> (r: bool)
    ensures
        r == (a@ == b@),
;

/// Borrows the text held by a copy-on-write string.
pub fn text<'a>(s: &'a Cow<'static, str>) -> (r: &'a str)
    ensures
        r@ == s@,
{
    match s {
        Cow::Borrowed(b) => b,
        Cow::Owned(o) => o.as_str(),
    }
}

/// Copies a copy-on-write string. A borrowed static string stays borrowed, so
/// nothing is allocated for it; an owned one is duplicated.
pub fn clone_text(s: &Cow<'static, str>) -> (r: Cow<'static, str>)
    ensures
        r@ == s@,
        r is Borrowed <==> s is Borrowed,
{
    match s {
        Cow::Borrowed(b) => Cow::Borrowed(*b),
        Cow::Owned(o) => Cow::Owned(o.clone()),
    }
}

/// The characters of `s`, in order.
pub fn to_chars(s: &str) -> (r: Vec<char>)
    ensures
        r@ == s@,
{
    broadcast use vstd::string::group_string_axioms;

    let mut out: Vec<char> = Vec::new();
    let mut it: Chars<'_> = s.chars();
    loop
        invariant
            it.obeys_prophetic_iter_laws(),
            it.decrease() is Some,
            s@ =~= out@ + it.remaining(),
        ensures
            s@ =~= out@,
        decreases it.decrease()->0,
    {
        match it.next() {
            Some(c) => {
                out.push(c);
            },
            None => {
                break;
            },
        }
    }
    out
}

} // verus!
