use vstd::prelude::*;

verus! {

/// The characters of a string after leading and trailing whitespace are
/// removed. Lines are grouped by equality of this value; what the result
/// is for a given string is left to `str::trim`.
pub uninterp spec fn trim_of(s: Seq<char>) -> Seq<char>;

/// Two strings are trim-equal when they agree after leading and trailing
/// whitespace are discarded. This is the grouping relation of the collapser;
/// it never changes the text that is stored or emitted.
pub open spec fn trim_eq(a: Seq<char>, b: Seq<char>) -> bool {
    trim_of(a) == trim_of(b)
}

/// Relies on str::trim: returns the string with leading and trailing
/// whitespace removed; the result depends on the characters alone.
#[verifier::external_body]
fn trim(s: &str) -> (r: &str)
    ensures
        r@ == trim_of(s@),
{
    s.trim()
}

/// Decides trim-equality of two strings, the comparison the collapser
/// makes between a new line and the open run's stored first line.
pub fn trim_eq_exec(a: &str, b: &str) -> (r: bool)
    ensures
        r == trim_eq(a@, b@),
{
    let ta = String::from_str(trim(a));
    let tb = String::from_str(trim(b));
    ta == tb
}

} // verus!
