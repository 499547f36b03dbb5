//! Helpers on strings: comparison, decomposition into characters, and building
//! a string character by character.

use vstd::prelude::*;
use vstd::std_specs::iter::IteratorSpec;

verus! {

/// `String::push` of the standard library: the character is appended at the
/// end and everything before it stays as it was.
pub assume_specification[ std::string::String::push ](s: &mut std::string::String, ch: char)
    ensures
        final(s)@ == old(s)@.push(ch),
;

/// Whether two strings hold the same characters.
pub fn text_eq(a: &str, b: &str) -> (r: bool)
    ensures
        r == (a@ == b@),
{
    let mut x = a.chars();
    let mut y = b.chars();
    let ghost mut i: int = 0;
    loop
        invariant
            0 <= i <= a@.len(),
            i <= b@.len(),
            a@.take(i) == b@.take(i),
            x.remaining() == a@.skip(i),
            y.remaining() == b@.skip(i),
            x.obeys_prophetic_iter_laws(),
            y.obeys_prophetic_iter_laws(),
            x.decrease() is Some,
        decreases x.decrease()->0,
    {
        let p = x.next();
        let q = y.next();
        match (p, q) {
            (Some(c), Some(d)) => {
                if c != d {
                    assert(a@[i] != b@[i]);
                    return false;
                }
                proof {
                    assert(a@.take(i + 1) =~= a@.take(i).push(a@[i]));
                    assert(b@.take(i + 1) =~= b@.take(i).push(b@[i]));
                    assert(a@.skip(i + 1) =~= a@.skip(i).drop_first());
                    assert(b@.skip(i + 1) =~= b@.skip(i).drop_first());
                    i = i + 1;
                }
            },
            (None, None) => {
                assert(a@ =~= a@.take(i));
                assert(b@ =~= b@.take(i));
                return true;
            },
            _ => {
                assert(a@.len() != b@.len());
                return false;
            },
        }
    }
}

/// The characters of a string, in order.
pub fn characters(source: &str) -> (out: Vec<char>)
    ensures
        out@ == source@,
{
    let mut out: Vec<char> = Vec::new();
    for c in it: source.chars()
        invariant
            it.seq() == source@,
            out@ == it.seq().take(it.index()),
    {
        out.push(c);
    }
    out
}

/// A string of one character.
pub fn single(c: char) -> (out: String)
    ensures
        out@ == seq![c],
{
    let mut out = String::new();
    out.push(c);
    assert(out@ =~= seq![c]);
    out
}

/// The text that the standard library's `Debug` formatting gives for a string:
/// the string between double quotes, with its special characters escaped.
pub uninterp spec fn str_debug(text: Seq<char>) -> Seq<char>;

/// `format!("{:?}", text)` of the standard library. The result is a function of
/// the characters of `text` alone; it is given the name [`str_debug`] and
/// nothing more is claimed of it.
#[verifier::external_body]
pub(crate) fn debug_text(text: &str) -> (out: String)
    ensures
        out@ == str_debug(text@),
{
    format!("{:?}", text)
}

} // verus!
