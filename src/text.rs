//! Small string operations of std that the detection logic is built on.
use vstd::prelude::*;

verus! {

/// The lines of a text, as `str::lines` yields them.
pub uninterp spec fn lines_of(s: Seq<char>) -> Seq<Seq<char>>;

/// A text with leading and trailing white space removed, as `str::trim` does.
pub uninterp spec fn trimmed(s: Seq<char>) -> Seq<char>;

/// The pieces of a text between occurrences of a separator, as `str::split` yields them.
pub uninterp spec fn pieces_of(s: Seq<char>, sep: Seq<char>) -> Seq<Seq<char>>;

/// `needle` occurs in `hay` as a contiguous run of characters.
pub open spec fn occurs_in(needle: Seq<char>, hay: Seq<char>) -> bool {
    exists|i: int| 0 <= i && i + needle.len() <= hay.len() && #[trigger] hay.subrange(i, i + needle.len()) == needle
}

/// The views of a sequence of strings.
pub open spec fn views(v: Seq<String>) -> Seq<Seq<char>> {
    v.map_values(|s: String| s@)
}

/// Relies on `str::lines`: the result depends on the text alone.
#[verifier::external_body]
pub(crate) fn split_lines(s: &str) -> (r: Vec<String>)
    ensures
        views(r@) == lines_of(s@),
{
    s.lines().map(|l| l.to_string()).collect()
}

/// Relies on `str::trim`: the result depends on the text alone; an empty
/// text stays empty.
#[verifier::external_body]
pub(crate) fn trim(s: &str) -> (r: String)
    ensures
        r@ == trimmed(s@),
        s@.len() == 0 ==> r@.len() == 0,
{
    s.trim().to_string()
}

/// Relies on `str::split` with a string separator: the result depends on
/// the text and the separator alone.
#[verifier::external_body]
pub(crate) fn split_on(s: &str, sep: &str) -> (r: Vec<String>)
    ensures
        views(r@) == pieces_of(s@, sep@),
{
    s.split(sep).map(|p| p.to_string()).collect()
}

/// Relies on `str::contains` with a string pattern: true exactly when the
/// pattern occurs in the text.
#[verifier::external_body]
pub(crate) fn contains(hay: &str, needle: &str) -> (r: bool)
    ensures
        r == occurs_in(needle@, hay@),
{
    hay.contains(needle)
}

} // verus!
