//! Lemmas about the definitions of the grammar, on which the proofs of the
//! executable parser and of the laws rest.

use vstd::prelude::*;
use crate::grammar::{
    document_of_lines, first_index_of, is_ignorable, is_whitespace, line_of, lines_of, trimmed,
    trimmed_end, trimmed_start,
};

verus! {

/// Dropping a run of leading whitespace that ends at a non-whitespace
/// character (or at the end of `s`) is what `trimmed_start` does.
pub proof fn lemma_trimmed_start_skip(s: Seq<char>, a: int)
    requires
        0 <= a <= s.len(),
        forall|i: int| 0 <= i < a ==> is_whitespace(#[trigger] s[i]),
        a < s.len() ==> !is_whitespace(s[a]),
    ensures
        trimmed_start(s) == s.skip(a),
    decreases a,
{
    if a > 0 {
        lemma_trimmed_start_skip(s.drop_first(), a - 1);
    }
}

/// Dropping a run of trailing whitespace that begins after a non-whitespace
/// character (or at the start of `s`) is what `trimmed_end` does.
pub proof fn lemma_trimmed_end_take(s: Seq<char>, b: int)
    requires
        0 <= b <= s.len(),
        forall|i: int| b <= i < s.len() ==> is_whitespace(#[trigger] s[i]),
        0 < b ==> !is_whitespace(s[b - 1]),
    ensures
        trimmed_end(s) == s.take(b),
    decreases s.len() - b,
{
    if b < s.len() {
        lemma_trimmed_end_take(s.drop_last(), b);
    }
}

/// The trimmed text is the stretch from the first to the last character that
/// is not whitespace.
pub proof fn lemma_trimmed_subrange(s: Seq<char>, a: int, b: int)
    requires
        0 <= a <= b <= s.len(),
        forall|i: int| 0 <= i < a ==> is_whitespace(#[trigger] s[i]),
        forall|i: int| b <= i < s.len() ==> is_whitespace(#[trigger] s[i]),
        a < b ==> !is_whitespace(s[a]) && !is_whitespace(s[b - 1]),
        a == b ==> a == s.len(),
    ensures
        trimmed(s) == s.subrange(a, b),
{
    lemma_trimmed_start_skip(s, a);
    lemma_trimmed_end_take(s.skip(a), b - a);
}

/// `first_index_of` finds an occurrence with none before it, and finds
/// nothing only where there is none.
pub proof fn lemma_first_index_of(s: Seq<char>, c: char)
    ensures
        match first_index_of(s, c) {
            Some(i) => 0 <= i < s.len() && s[i] == c && forall|j: int|
                0 <= j < i ==> #[trigger] s[j] != c,
            None => forall|j: int| 0 <= j < s.len() ==> #[trigger] s[j] != c,
        },
    decreases s.len(),
{
    if s.len() > 0 && s.first() != c {
        let rest = s.drop_first();
        lemma_first_index_of(rest, c);
        match first_index_of(rest, c) {
            Some(i) => {
                assert forall|j: int| 0 <= j < i + 1 implies #[trigger] s[j] != c by {
                    if j > 0 {
                        assert(rest[j - 1] == s[j]);
                    }
                }
            },
            None => {
                assert forall|j: int| 0 <= j < s.len() implies #[trigger] s[j] != c by {
                    if j > 0 {
                        assert(rest[j - 1] == s[j]);
                    }
                }
            },
        }
    }
}

/// An occurrence with none before it is the one that `first_index_of` finds.
pub proof fn lemma_first_index_of_is(s: Seq<char>, c: char, i: int)
    requires
        0 <= i < s.len(),
        s[i] == c,
        forall|j: int| 0 <= j < i ==> #[trigger] s[j] != c,
    ensures
        first_index_of(s, c) == Some(i),
{
    lemma_first_index_of(s, c);
}

/// Where `c` does not occur, `first_index_of` finds nothing.
pub proof fn lemma_first_index_of_none(s: Seq<char>, c: char)
    requires
        forall|j: int| 0 <= j < s.len() ==> #[trigger] s[j] != c,
    ensures
        first_index_of(s, c) is None,
{
    lemma_first_index_of(s, c);
}

/// How the lines change when one character is appended to the text: a
/// newline opens a new, empty line; any other character extends the last line.
pub proof fn lemma_lines_of_push(s: Seq<char>, c: char)
    ensures
        lines_of(s).len() > 0,
        c == '\n' ==> lines_of(s.push(c)) == lines_of(s).push(Seq::<char>::empty()),
        c != '\n' ==> lines_of(s.push(c)) == lines_of(s).drop_last().push(
            lines_of(s).last().push(c),
        ),
    decreases s.len(),
{
    let t = s.push(c);
    lemma_first_index_of(s, '\n');
    match first_index_of(s, '\n') {
        Some(i) => {
            lemma_first_index_of_is(t, '\n', i);
            let rest = s.skip(i + 1);
            lemma_lines_of_push(rest, c);
            assert(t.take(i) =~= s.take(i));
            assert(t.skip(i + 1) =~= rest.push(c));
            let head = seq![s.take(i)];
            let tail = lines_of(rest);
            if c == '\n' {
                assert(head + tail.push(Seq::<char>::empty()) =~= (head + tail).push(
                    Seq::<char>::empty(),
                ));
            } else {
                assert(head + tail.drop_last().push(tail.last().push(c)) =~= (head
                    + tail.drop_last()).push(tail.last().push(c)));
            }
        },
        None => {
            if c == '\n' {
                lemma_first_index_of_is(t, '\n', s.len() as int);
                assert(t.take(s.len() as int) =~= s);
                assert(t.skip(s.len() as int + 1) =~= Seq::<char>::empty());
                assert(lines_of(Seq::<char>::empty()) == seq![Seq::<char>::empty()]);
                assert(seq![s] + seq![Seq::<char>::empty()] =~= seq![s].push(
                    Seq::<char>::empty(),
                ));
            } else {
                lemma_first_index_of_none(t, '\n');
            }
        },
    }
}

/// Lines that follow a malformed line do not mend it: where some first
/// lines describe no document, neither do all of them.
pub proof fn lemma_document_of_lines_prefix(lines: Seq<Seq<char>>, n: int)
    requires
        0 <= n <= lines.len(),
        document_of_lines(lines.take(n)) is None,
    ensures
        document_of_lines(lines) is None,
    decreases lines.len() - n,
{
    if n == lines.len() {
        assert(lines.take(n) =~= lines);
    } else {
        assert(lines.take(n + 1).drop_last() =~= lines.take(n));
        lemma_document_of_lines_prefix(lines, n + 1);
    }
}

/// The number of whitespace characters that `s` begins with.
pub proof fn lemma_leading_whitespace(s: Seq<char>) -> (a: int)
    ensures
        0 <= a <= s.len(),
        forall|i: int| 0 <= i < a ==> is_whitespace(#[trigger] s[i]),
        a < s.len() ==> !is_whitespace(s[a]),
    decreases s.len(),
{
    if s.len() > 0 && is_whitespace(s.first()) {
        let rest = s.drop_first();
        let a = lemma_leading_whitespace(rest);
        assert forall|i: int| 0 <= i < a + 1 implies is_whitespace(#[trigger] s[i]) by {
            if i > 0 {
                assert(rest[i - 1] == s[i]);
            }
        }
        a + 1
    } else {
        0
    }
}

/// Where the whitespace begins that `s` ends with, looking no further back
/// than `a`.
pub proof fn lemma_trailing_whitespace(s: Seq<char>, a: int) -> (b: int)
    requires
        0 <= a <= s.len(),
    ensures
        a <= b <= s.len(),
        forall|i: int| b <= i < s.len() ==> is_whitespace(#[trigger] s[i]),
        a < b ==> !is_whitespace(s[b - 1]),
    decreases s.len(),
{
    if a < s.len() && is_whitespace(s.last()) {
        let rest = s.drop_last();
        let b = lemma_trailing_whitespace(rest, a);
        assert forall|i: int| b <= i < s.len() implies is_whitespace(#[trigger] s[i]) by {
            if i < rest.len() {
                assert(rest[i] == s[i]);
            }
        }
        b
    } else {
        s.len() as int
    }
}

/// Trimming keeps one stretch of the text: from its first to its last
/// character that is not whitespace. The bounds of that stretch are returned.
pub proof fn lemma_trimmed_bounds(s: Seq<char>) -> (bounds: (int, int))
    ensures
        0 <= bounds.0 <= bounds.1 <= s.len(),
        trimmed(s) == s.subrange(bounds.0, bounds.1),
        forall|i: int| 0 <= i < bounds.0 ==> is_whitespace(#[trigger] s[i]),
        forall|i: int| bounds.1 <= i < s.len() ==> is_whitespace(#[trigger] s[i]),
        bounds.0 < bounds.1 ==> !is_whitespace(s[bounds.0]) && !is_whitespace(s[bounds.1 - 1]),
        bounds.0 == bounds.1 ==> bounds.0 == s.len(),
{
    let a = lemma_leading_whitespace(s);
    let b = lemma_trailing_whitespace(s, a);
    lemma_trimmed_subrange(s, a, b);
    (a, b)
}

/// Texts that differ only in the whitespace around them trim to the same.
pub proof fn lemma_trimmed_padded(before: Seq<char>, core: Seq<char>, after: Seq<char>)
    requires
        forall|i: int| 0 <= i < before.len() ==> is_whitespace(#[trigger] before[i]),
        forall|i: int| 0 <= i < after.len() ==> is_whitespace(#[trigger] after[i]),
    ensures
        trimmed(before + core + after) == trimmed(core),
{
    let s = before + core + after;
    let (a, b) = lemma_trimmed_bounds(core);
    let n = before.len() as int;
    if a == b {
        lemma_trimmed_subrange(s, s.len() as int, s.len() as int);
    } else {
        lemma_trimmed_subrange(s, n + a, n + b);
    }
}

/// A line is malformed exactly where, once trimmed, it is neither blank nor
/// a comment and holds no `=`.
pub proof fn lemma_malformed(raw: Seq<char>)
    ensures
        line_of(raw) is Malformed <==> !is_ignorable(trimmed(raw)) && !trimmed(raw).contains('='),
{
    lemma_first_index_of(trimmed(raw), '=');
}

/// One malformed line leaves the lines without a document.
pub proof fn lemma_malformed_line_fails(lines: Seq<Seq<char>>, i: int)
    requires
        0 <= i < lines.len(),
        line_of(lines[i]) is Malformed,
    ensures
        document_of_lines(lines) is None,
{
    lemma_document_of_lines_prefix(lines, i + 1);
}

/// Lines without a document hold a malformed line, which is returned.
pub proof fn lemma_failure_has_malformed_line(lines: Seq<Seq<char>>) -> (i: int)
    requires
        document_of_lines(lines) is None,
    ensures
        0 <= i < lines.len(),
        line_of(lines[i]) is Malformed,
    decreases lines.len(),
{
    if document_of_lines(lines.drop_last()) is None {
        lemma_failure_has_malformed_line(lines.drop_last())
    } else {
        lines.len() - 1
    }
}

/// The document depends on each line only through what the line means.
pub proof fn lemma_document_of_lines_by_meaning(a: Seq<Seq<char>>, b: Seq<Seq<char>>)
    requires
        a.len() == b.len(),
        forall|i: int| 0 <= i < a.len() ==> line_of(#[trigger] a[i]) == line_of(b[i]),
    ensures
        document_of_lines(a) == document_of_lines(b),
    decreases a.len(),
{
    if a.len() > 0 {
        lemma_document_of_lines_by_meaning(a.drop_last(), b.drop_last());
    }
}

} // verus!
