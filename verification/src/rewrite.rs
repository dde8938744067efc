//! Rewriting the parts of a text that a search has found.
use vstd::prelude::*;
use crate::outside::pattern::{byte_spans, regex_spans, spans_within};
use crate::text::{char_views, char_width, copy_range, push_all, to_chars, utf8_len};

verus! {

// ── Where matches are ────────────────────────────────────────────────────

/// The first character from `i` on that begins at byte `at` or behind it; the
/// number of characters where none does.
pub open spec fn char_at(text: Seq<char>, at: nat, i: int) -> int
    decreases text.len() - i,
{
    if i >= text.len() || utf8_len(text.take(i)) >= at {
        i
    } else {
        char_at(text, at, i + 1)
    }
}

/// Spans in characters for spans in bytes.
pub open spec fn char_spans(text: Seq<char>, spans: Seq<(usize, usize)>) -> Seq<(usize, usize)> {
    Seq::new(
        spans.len(),
        |k: int|
            (
                char_at(text, spans[k].0 as nat, 0) as usize,
                char_at(text, spans[k].1 as nat, 0) as usize,
            ),
    )
}

/// Where the successive matches of a pattern in a text start and end, counted in
/// characters.
pub open spec fn found_spans(pattern: Seq<char>, text: Seq<char>) -> Seq<(usize, usize)> {
    char_spans(text, regex_spans(pattern, text))
}

proof fn lemma_char_at(text: Seq<char>, at: nat, i: int)
    requires
        0 <= i <= text.len(),
    ensures
        i <= char_at(text, at, i) <= text.len(),
        forall|j: int| i <= j < char_at(text, at, i) ==> utf8_len(#[trigger] text.take(j)) < at,
    decreases text.len() - i,
{
    if i < text.len() && utf8_len(text.take(i)) < at {
        lemma_char_at(text, at, i + 1);
    }
}

proof fn lemma_char_at_from(text: Seq<char>, at: nat, i: int)
    requires
        0 <= i <= text.len(),
        forall|j: int| 0 <= j < i ==> utf8_len(#[trigger] text.take(j)) < at,
    ensures
        char_at(text, at, 0) == char_at(text, at, i),
    decreases i,
{
    if i > 0 {
        lemma_char_at_from(text, at, i - 1);
        assert(utf8_len(text.take(i - 1)) < at);
    }
}

proof fn lemma_char_at_ordered(text: Seq<char>, a: nat, b: nat)
    requires
        a <= b,
    ensures
        0 <= char_at(text, a, 0) <= char_at(text, b, 0) <= text.len(),
{
    lemma_char_at(text, a, 0);
    lemma_char_at_from(text, b, char_at(text, a, 0));
    lemma_char_at(text, b, char_at(text, a, 0));
}

/// Go on to the character at byte `at`, from character `i`, which begins at byte
/// `done`.
fn advance(text: &[char], i: usize, done: u128, at: usize) -> (r: (usize, u128))
    requires
        i <= text@.len(),
        done == utf8_len(text@.take(i as int)),
        done <= 4 * i,
        forall|j: int| 0 <= j < i ==> utf8_len(#[trigger] text@.take(j)) < at,
    ensures
        r.0 == char_at(text@, at as nat, 0),
        r.0 <= text@.len(),
        r.1 == utf8_len(text@.take(r.0 as int)),
        r.1 <= 4 * r.0,
        forall|j: int| 0 <= j < r.0 ==> utf8_len(#[trigger] text@.take(j)) < at,
{
    let mut i: usize = i;
    let mut done: u128 = done;
    proof {
        lemma_char_at_from(text@, at as nat, i as int);
    }
    while i < text.len() && done < at as u128
        invariant
            i <= text@.len(),
            done == utf8_len(text@.take(i as int)),
            done <= 4 * i,
            char_at(text@, at as nat, 0) == char_at(text@, at as nat, i as int),
            forall|j: int| 0 <= j < i ==> utf8_len(#[trigger] text@.take(j)) < at,
        decreases text@.len() - i,
    {
        assert(text@.take(i + 1).drop_last() =~= text@.take(i as int));
        assert(text@.take(i + 1).last() == text@[i as int]);
        done = done + char_width(text[i]) as u128;
        i += 1;
    }
    (i, done)
}

/// Where the successive matches of a pattern in a text start and end, counted in
/// characters.
pub fn spans(pattern: &str, text: &str) -> (r: Vec<(usize, usize)>)
    ensures
        r@ == found_spans(pattern@, text@),
        spans_within(r@, text@.len()),
{
    let found = byte_spans(pattern, text);
    locate(to_chars(text).as_slice(), &found)
}

/// Spans in characters for spans in bytes that follow each other.
pub fn locate(text: &[char], found: &Vec<(usize, usize)>) -> (r: Vec<(usize, usize)>)
    requires
        forall|i: int| 0 <= i < found@.len() ==> (#[trigger] found@[i]).0 <= found@[i].1,
        forall|i: int, j: int|
            0 <= i < j < found@.len() ==> (#[trigger] found@[i]).1 <= (#[trigger] found@[j]).0,
    ensures
        r@ == char_spans(text@, found@),
        spans_within(r@, text@.len()),
{
    let size: usize = text.len();
    let ghost expected = char_spans(text@, found@);
    let mut r: Vec<(usize, usize)> = Vec::new();
    let mut n: usize = 0;
    let mut i: usize = 0;
    let mut done: u128 = 0;
    assert(text@.take(0) =~= Seq::empty());
    while n < found.len()
        invariant
            n <= found@.len(),
            forall|k: int| 0 <= k < found@.len() ==> (#[trigger] found@[k]).0 <= found@[k].1,
            forall|k: int, l: int|
                0 <= k < l < found@.len() ==> (#[trigger] found@[k]).1 <= (#[trigger] found@[l]).0,
            expected == char_spans(text@, found@),
            r@ == expected.take(n as int),
            i <= text@.len(),
            done == utf8_len(text@.take(i as int)),
            done <= 4 * i,
            n == 0 ==> i == 0,
            n > 0 ==> forall|j: int|
                0 <= j < i ==> utf8_len(#[trigger] text@.take(j)) < found@[n - 1].1,
        decreases found@.len() - n,
    {
        let (from, to) = found[n];
        assert(found@[n as int].0 <= found@[n as int].1);
        if n > 0 {
            assert(found@[n - 1].1 <= found@[n as int].0);
        }
        let (first, before) = advance(text, i, done, from);
        let (last, behind) = advance(text, first, before, to);
        r.push((first, last));
        assert(expected.take(n + 1) =~= expected.take(n as int).push(expected[n as int]));
        i = last;
        done = behind;
        n += 1;
    }
    assert(expected.take(n as int) =~= expected);
    proof {
        assert forall|k: int| 0 <= k < expected.len() implies (#[trigger] expected[k]).0
            <= expected[k].1 <= text@.len() by {
            assert(found@[k].0 <= found@[k].1);
            lemma_char_at_ordered(text@, found@[k].0 as nat, found@[k].1 as nat);
            assert(text@.len() == size);
        }
        assert forall|k: int, l: int| 0 <= k < l < expected.len() implies (
        #[trigger] expected[k]).1 <= (#[trigger] expected[l]).0 by {
            assert(found@[k].1 <= found@[l].0);
            lemma_char_at_ordered(text@, found@[k].1 as nat, found@[l].0 as nat);
            assert(text@.len() == size);
        }
    }
    r
}

// ── Replacing them ───────────────────────────────────────────────────────

/// The text of a span.
pub open spec fn token(text: Seq<char>, span: (usize, usize)) -> Seq<char> {
    text.subrange(span.0 as int, span.1 as int)
}

/// Where the text behind the first `n` spans begins.
pub open spec fn behind(spans: Seq<(usize, usize)>, n: int) -> int {
    if n <= 0 {
        0
    } else {
        spans[n - 1].1 as int
    }
}

/// The text up to the end of the first `n` spans, each span replaced by what
/// `subs` holds for it.
pub open spec fn spliced_upto(
    text: Seq<char>,
    spans: Seq<(usize, usize)>,
    subs: Seq<Seq<char>>,
    n: int,
) -> Seq<char>
    decreases n,
{
    if n <= 0 {
        Seq::empty()
    } else {
        spliced_upto(text, spans, subs, n - 1) + text.subrange(
            behind(spans, n - 1),
            spans[n - 1].0 as int,
        ) + subs[n - 1]
    }
}

/// A text with every span replaced by what `subs` holds for it.
pub open spec fn spliced(
    text: Seq<char>,
    spans: Seq<(usize, usize)>,
    subs: Seq<Seq<char>>,
) -> Seq<char> {
    spliced_upto(text, spans, subs, spans.len() as int) + text.skip(
        behind(spans, spans.len() as int),
    )
}

/// Replace every span of a text by what `subs` holds for it.
pub fn splice(text: &[char], spans: &Vec<(usize, usize)>, subs: &Vec<Vec<char>>) -> (r: Vec<char>)
    requires
        spans_within(spans@, text@.len()),
        subs@.len() == spans@.len(),
    ensures
        r@ == spliced(text@, spans@, char_views(subs@)),
{
    let ghost ss = char_views(subs@);
    let mut out: Vec<char> = Vec::new();
    let mut n: usize = 0;
    let mut at: usize = 0;
    while n < spans.len()
        invariant
            n <= spans@.len(),
            ss == char_views(subs@),
            subs@.len() == spans@.len(),
            spans_within(spans@, text@.len()),
            at == behind(spans@, n as int),
            at <= text@.len(),
            n < spans@.len() ==> at <= spans@[n as int].0,
            out@ == spliced_upto(text@, spans@, ss, n as int),
        decreases spans@.len() - n,
    {
        let (from, to) = spans[n];
        assert(spans@[n as int].0 <= spans@[n as int].1);
        let gap = copy_range(text, at, from);
        push_all(&mut out, gap.as_slice());
        push_all(&mut out, subs[n].as_slice());
        at = to;
        n += 1;
        if n < spans.len() {
            assert(spans@[n - 1].1 <= spans@[n as int].0);
        }
    }
    let tail = copy_range(text, at, text.len());
    assert(tail@ =~= text@.skip(at as int));
    push_all(&mut out, tail.as_slice());
    out
}

proof fn lemma_splice_idle(
    text: Seq<char>,
    spans: Seq<(usize, usize)>,
    subs: Seq<Seq<char>>,
    n: int,
)
    requires
        0 <= n <= spans.len(),
        spans_within(spans, text.len()),
        subs.len() == spans.len(),
        forall|i: int| 0 <= i < spans.len() ==> #[trigger] subs[i] == token(text, spans[i]),
    ensures
        spliced_upto(text, spans, subs, n) == text.take(behind(spans, n)),
        0 <= behind(spans, n) <= text.len(),
    decreases n,
{
    if n > 0 {
        lemma_splice_idle(text, spans, subs, n - 1);
        assert(spans[n - 1].0 <= spans[n - 1].1);
        assert(subs[n - 1] == token(text, spans[n - 1]));
        if n > 1 {
            assert(spans[n - 2].1 <= spans[n - 1].0);
        }
        let a = behind(spans, n - 1);
        let b = spans[n - 1].0 as int;
        let c = spans[n - 1].1 as int;
        assert(text.take(a) + text.subrange(a, b) + text.subrange(b, c) =~= text.take(c));
    } else {
        assert(text.take(0) =~= Seq::<char>::empty());
    }
}

/// A text whose spans are replaced by themselves stays as it is.
pub proof fn law_splice_of_itself(text: Seq<char>, spans: Seq<(usize, usize)>, subs: Seq<Seq<char>>)
    requires
        spans_within(spans, text.len()),
        subs.len() == spans.len(),
        forall|i: int| 0 <= i < spans.len() ==> #[trigger] subs[i] == token(text, spans[i]),
    ensures
        spliced(text, spans, subs) == text,
{
    lemma_splice_idle(text, spans, subs, spans.len() as int);
    let a = behind(spans, spans.len() as int);
    assert(text.take(a) + text.skip(a) =~= text);
}

} // verus!
