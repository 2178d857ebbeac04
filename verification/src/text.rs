//! Text primitives: reading words as string slices, case folding, and
//! character classification.

use vstd::prelude::*;

verus! {

/// A value that can be read as text.
pub trait AsText {
    /// The characters this value stands for.
    spec fn text(&self) -> Seq<char>;

    /// Borrows the value as a string slice.
    fn as_text(&self) -> (s: &str)
        ensures
            s@ == self.text(),
    ;
}

impl AsText for String {
    open spec fn text(&self) -> Seq<char> {
        self@
    }

    fn as_text(&self) -> (s: &str) {
        self.as_str()
    }
}

impl<'a> AsText for &'a str {
    open spec fn text(&self) -> Seq<char> {
        self@
    }

    fn as_text(&self) -> (s: &str) {
        *self
    }
}

/// The texts of a list of words, in order.
pub open spec fn texts<T: AsText>(list: Seq<T>) -> Seq<Seq<char>> {
    list.map_values(|w: T| w.text())
}

/// The characters of `s`, in order.
pub fn chars_of(s: &str) -> (v: Vec<char>)
    ensures
        v@ == s@,
{
    let mut v: Vec<char> = Vec::new();
    for c in it: s.chars()
        invariant
            v@ == it.seq().take(it.index()),
    {
        v.push(c);
    }
    v
}

/// The lowercase form that `str::to_lowercase` gives to a run of characters.
pub uninterp spec fn lowercase_of(s: Seq<char>) -> Seq<char>;

/// Whether `char::is_alphabetic` counts a character as alphabetic.
pub uninterp spec fn alphabetic(c: char) -> bool;

/// Calls `str::to_lowercase`. Trusted: the result is taken to be a function
/// of the characters of `s` alone, named `lowercase_of`; nothing more is
/// claimed about it.
#[verifier::external_body]
pub(crate) fn to_lowercase(s: &str) -> (lower: String)
    ensures
        lower@ == lowercase_of(s@),
{
    s.to_lowercase()
}

/// Calls `char::is_alphabetic`. Trusted: the answer is taken to be a function
/// of the character alone, named `alphabetic`; nothing more is claimed about
/// it.
#[verifier::external_body]
pub(crate) fn is_alphabetic(c: char) -> (b: bool)
    ensures
        b == alphabetic(c),
{
    c.is_alphabetic()
}

} // verus!
