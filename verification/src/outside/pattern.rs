//! Regular expressions of the `regex` crate. A pattern is held as its text.
use vstd::prelude::*;
use vstd::utf8::encode_utf8;
use crate::text::opt_view;

verus! {

/// What is said of a pattern that does not compile, with or without regard to
/// case.
pub uninterp spec fn regex_error(pattern: Seq<char>, ignore_case: bool) -> Option<Seq<char>>;

/// Whether a pattern, with or without regard to case, matches somewhere in a text.
pub uninterp spec fn regex_matches(pattern: Seq<char>, ignore_case: bool, text: Seq<char>) -> bool;

/// The successive matches of a pattern in a text: for each match what its
/// groups matched, the whole match first.
pub uninterp spec fn regex_captures(pattern: Seq<char>, text: Seq<char>) -> Seq<
    Seq<Option<Seq<char>>>,
>;

/// Where the successive matches of a pattern in a text start and end, counted
/// in bytes of UTF-8.
pub uninterp spec fn regex_spans(pattern: Seq<char>, text: Seq<char>) -> Seq<(usize, usize)>;

/// What the groups of a match hold.
pub open spec fn group_views(v: Seq<Option<String>>) -> Seq<Option<Seq<char>>> {
    Seq::new(v.len(), |i: int| crate::text::opt_view(v[i]))
}

/// What the groups of some matches hold.
pub open spec fn match_views(v: Seq<Vec<Option<String>>>) -> Seq<Seq<Option<Seq<char>>>> {
    Seq::new(v.len(), |i: int| group_views(v[i]@))
}

/// Whether a character has a meaning in a pattern, and is escaped to stand for
/// itself.
pub open spec fn is_meta(c: char) -> bool {
    ||| c == '\\' || c == '.' || c == '+' || c == '*' || c == '?'
    ||| c == '(' || c == ')' || c == '|' || c == '[' || c == ']'
    ||| c == '{' || c == '}' || c == '^' || c == '$' || c == '#'
    ||| c == '&' || c == '-' || c == '~'
}

/// The pattern that matches a text literally: a backslash stands before every
/// character that has a meaning in a pattern.
pub open spec fn literal_pattern(text: Seq<char>) -> Seq<char>
    decreases text.len(),
{
    if text.len() == 0 {
        Seq::empty()
    } else {
        let head = literal_pattern(text.drop_last());
        if is_meta(text.last()) {
            head.push('\\').push(text.last())
        } else {
            head.push(text.last())
        }
    }
}

/// Whether spans follow each other inside `len` places.
pub open spec fn spans_within(spans: Seq<(usize, usize)>, len: nat) -> bool {
    &&& forall|i: int| 0 <= i < spans.len() ==> (#[trigger] spans[i]).0 <= spans[i].1 <= len
    &&& forall|i: int, j: int|
        0 <= i < j < spans.len() ==> (#[trigger] spans[i]).1 <= (#[trigger] spans[j]).0
}

/// Whether a pattern compiles, with or without regard to case.
pub open spec fn regex_compiles(pattern: Seq<char>, ignore_case: bool) -> bool {
    regex_error(pattern, ignore_case) is None
}

/// `RegexBuilder::build`: the text of its error, where the pattern is not valid.
/// Which patterns are, and the words, are named, not described.
#[verifier::external_body]
pub(crate) fn pattern_problem(pattern: &str, ignore_case: bool) -> (r: Option<String>)
    ensures
        opt_view(r) == regex_error(pattern@, ignore_case),
{
    regex::RegexBuilder::new(pattern).case_insensitive(ignore_case).build().err().map(
        |e| e.to_string(),
    )
}

/// `Regex::is_match` of a pattern that `RegexBuilder` compiles; false where it
/// does not compile.
#[verifier::external_body]
pub(crate) fn is_match(pattern: &str, ignore_case: bool, text: &str) -> (r: bool)
    ensures
        r == regex_matches(pattern@, ignore_case, text@),
{
    regex::RegexBuilder::new(pattern).case_insensitive(ignore_case).build().is_ok_and(
        |re| re.is_match(text),
    )
}

/// `regex::escape`: the text with a backslash before every character that has a
/// meaning in a pattern.
#[verifier::external_body]
pub(crate) fn literal(text: &str) -> (r: String)
    ensures
        r@ == literal_pattern(text@),
{
    regex::escape(text)
}

/// `Regex::captures_iter`: the groups of the successive matches; none where the
/// pattern does not compile. Every match has at least the group of the whole
/// match.
#[verifier::external_body]
pub(crate) fn captures(pattern: &str, text: &str) -> (r: Vec<Vec<Option<String>>>)
    ensures
        match_views(r@) == regex_captures(pattern@, text@),
        forall|i: int| 0 <= i < r@.len() ==> (#[trigger] r@[i])@.len() >= 1,
{
    let Ok(re) = regex::Regex::new(pattern) else {
        return Vec::new();
    };
    re.captures_iter(text).map(
        |c| c.iter().map(|g| g.map(|m| m.as_str().to_string())).collect(),
    ).collect()
}

/// `Regex::find_iter`: the byte offsets at which the successive matches, which do
/// not overlap, start and end; none where the pattern does not compile.
#[verifier::external_body]
pub(crate) fn byte_spans(pattern: &str, text: &str) -> (r: Vec<(usize, usize)>)
    ensures
        r@ == regex_spans(pattern@, text@),
        spans_within(r@, encode_utf8(text@).len()),
{
    let Ok(re) = regex::Regex::new(pattern) else {
        return Vec::new();
    };
    re.find_iter(text).map(|m| (m.start(), m.end())).collect()
}

} // verus!
