//! Laws of the format and of the parser, each proved from the definitions of
//! the grammar and from the contracts of the parsing functions.

use vstd::prelude::*;
use crate::document::OsRelease;
use crate::error::OsReleaseError;
use crate::grammar::{
    assignment, document_of, document_of_lines, first_index_of, is_ignorable, is_quote,
    is_whitespace, line_of, lines_as_read, lines_of, trimmed, unquoted, without_carriage_return,
    Line,
};
use crate::lemmas::{
    lemma_document_of_lines_by_meaning, lemma_failure_has_malformed_line, lemma_first_index_of,
    lemma_lines_of_push, lemma_malformed, lemma_malformed_line_fails, lemma_trimmed_bounds,
    lemma_trimmed_padded, lemma_trimmed_subrange,
};
use crate::parser::{discovers, reports, text_of};

verus! {

/// Where a line of the text is neither blank nor a comment and holds no
/// `=`, parsing fails with `ParseError`, and nothing of a document comes back.
pub proof fn missing_separator_is_rejected(
    data: Seq<char>,
    i: int,
    r: Result<OsRelease, OsReleaseError>,
)
    requires
        0 <= i < lines_of(data).len(),
        !is_ignorable(trimmed(lines_of(data)[i])),
        !lines_of(data)[i].contains('='),
        reports(r, document_of(data)),
    ensures
        r matches Err(e) && e is ParseError,
{
    let raw = lines_of(data)[i];
    lemma_trimmed_bounds(raw);
    lemma_malformed(raw);
    lemma_malformed_line_fails(lines_of(data), i);
}

/// Parsing fails only where some line of the text is neither blank nor a
/// comment and holds no `=`.
pub proof fn rejected_only_for_missing_separator(
    data: Seq<char>,
    r: Result<OsRelease, OsReleaseError>,
)
    requires
        reports(r, document_of(data)),
        r is Err,
    ensures
        exists|i: int|
            0 <= i < lines_of(data).len() && !is_ignorable(trimmed(#[trigger] lines_of(data)[i]))
                && !lines_of(data)[i].contains('='),
{
    let i = lemma_failure_has_malformed_line(lines_of(data));
    let raw = lines_of(data)[i];
    lemma_malformed(raw);
    let (a, b) = lemma_trimmed_bounds(raw);
    if raw.contains('=') {
        let j = choose|j: int| 0 <= j < raw.len() && raw[j] == '=';
        assert(trimmed(raw)[j - a] == '=');
    }
}

/// The outcome of parsing is a function of the content: two outcomes for the
/// same text are two equal documents, or two failures of the same kind.
pub proof fn same_content_same_outcome(
    data: Seq<char>,
    first: Result<OsRelease, OsReleaseError>,
    second: Result<OsRelease, OsReleaseError>,
)
    requires
        reports(first, document_of(data)),
        reports(second, document_of(data)),
    ensures
        match (first, second) {
            (Ok(a), Ok(b)) => a@ == b@,
            (Err(a), Err(b)) => a.same_kind(&b),
            _ => false,
        },
{
}

/// Lines that are all blank or comments describe the empty document.
pub proof fn comments_and_blanks_give_empty_document(lines: Seq<Seq<char>>)
    requires
        forall|i: int| 0 <= i < lines.len() ==> is_ignorable(trimmed(#[trigger] lines[i])),
    ensures
        document_of_lines(lines) == Some(Map::<Seq<char>, Seq<char>>::empty()),
    decreases lines.len(),
{
    if lines.len() > 0 {
        comments_and_blanks_give_empty_document(lines.drop_last());
    }
}

/// A key has the value of the last line that assigns it, whatever earlier
/// lines gave it: in the document a key has one value only.
pub proof fn last_assignment_wins(lines: Seq<Seq<char>>, i: int)
    requires
        0 <= i < lines.len(),
        document_of_lines(lines) is Some,
        line_of(lines[i]) is Assignment,
        forall|j: int|
            i < j < lines.len() ==> !(line_of(#[trigger] lines[j]) matches Line::Assignment {
                key,
                ..
            } && key == line_of(lines[i])->key),
    ensures
        document_of_lines(lines)->0.contains_key(line_of(lines[i])->key),
        document_of_lines(lines)->0[line_of(lines[i])->key] == line_of(lines[i])->value,
    decreases lines.len(),
{
    if i < lines.len() - 1 {
        last_assignment_wins(lines.drop_last(), i);
    }
}

/// A newline at the very end of the text changes nothing.
pub proof fn final_newline_changes_nothing(data: Seq<char>)
    ensures
        document_of(data.push('\n')) == document_of(data),
{
    lemma_lines_of_push(data, '\n');
    let lines = lines_of(data);
    assert(lines.push(Seq::<char>::empty()).drop_last() =~= lines);
}

/// A carriage return at the end of a line does not change what the line means.
pub proof fn carriage_return_changes_nothing(line: Seq<char>)
    ensures
        line_of(without_carriage_return(line)) == line_of(line),
{
    if line.len() > 0 && line.last() == '\r' {
        let kept = line.drop_last();
        let pad = seq!['\r'];
        assert(Seq::<char>::empty() + kept + pad =~= line);
        lemma_trimmed_padded(Seq::<char>::empty(), kept, pad);
    }
}

/// The lines that reading a text line by line yields describe the same
/// document as the text itself.
pub proof fn lines_as_read_give_same_document(data: Seq<char>)
    ensures
        document_of_lines(lines_as_read(data)) == document_of(data),
{
    lemma_lines_of_push(data, 'x');
    let pieces = lines_of(data);
    let init = pieces.drop_last();
    let ended = init.map_values(|line: Seq<char>| without_carriage_return(line));
    assert forall|i: int| 0 <= i < ended.len() implies line_of(#[trigger] ended[i]) == line_of(
        init[i],
    ) by {
        carriage_return_changes_nothing(init[i]);
    }
    lemma_document_of_lines_by_meaning(ended, init);
    if pieces.last().len() > 0 {
        assert(ended.push(pieces.last()).drop_last() =~= ended);
    }
}

/// Parsing a text and parsing the lines read from a file of that content
/// have the same outcome: two equal documents, or two failures of the same
/// kind.
pub proof fn text_and_file_parse_alike(
    data: Seq<char>,
    read: Seq<Result<String, std::io::Error>>,
    from_text: Result<OsRelease, OsReleaseError>,
    from_file: Result<OsRelease, OsReleaseError>,
)
    requires
        read.map_values(|line: Result<String, std::io::Error>| text_of(line)) == lines_as_read(
            data,
        ),
        reports(from_text, document_of(data)),
        reports(
            from_file,
            document_of_lines(
                read.map_values(|line: Result<String, std::io::Error>| text_of(line)),
            ),
        ),
    ensures
        match (from_text, from_file) {
            (Ok(a), Ok(b)) => a@ == b@,
            (Err(a), Err(b)) => a.same_kind(&b),
            _ => false,
        },
{
    lines_as_read_give_same_document(data);
}

/// A value wrapped in a pair of equal quote characters loses exactly that
/// pair, whichever of the two quote characters it is.
pub proof fn wrapping_quotes_are_removed(quote: char, inner: Seq<char>)
    requires
        is_quote(quote),
    ensures
        unquoted(seq![quote] + inner + seq![quote]) == inner,
{
}

/// A value that does not begin and end with the same quote character stays
/// as it is, and so does a lone quote character.
pub proof fn other_values_are_untouched(value: Seq<char>)
    requires
        value.len() < 2 || !is_quote(value.first()) || value.first() != value.last(),
    ensures
        unquoted(value) == value,
{
}

/// Trimming removes the whitespace around a text and nothing inside it.
pub proof fn trimming_keeps_the_inside(before: Seq<char>, core: Seq<char>, after: Seq<char>)
    requires
        forall|i: int| 0 <= i < before.len() ==> is_whitespace(#[trigger] before[i]),
        forall|i: int| 0 <= i < after.len() ==> is_whitespace(#[trigger] after[i]),
        core.len() > 0 ==> !is_whitespace(core.first()) && !is_whitespace(core.last()),
    ensures
        trimmed(before + core + after) == core,
{
    lemma_trimmed_padded(before, core, after);
    lemma_trimmed_subrange(core, 0, core.len() as int);
}

/// Key and value are copied from the line character for character: each is
/// one stretch of the line. Nothing is unescaped, joined or replaced.
pub proof fn key_and_value_are_stretches_of_the_line(
    line: Seq<char>,
    key: Seq<char>,
    value: Seq<char>,
)
    requires
        assignment(line) == Some((key, value)),
    ensures
        exists|from: int, to: int|
            0 <= from <= to <= line.len() && key == #[trigger] line.subrange(from, to),
        exists|from: int, to: int|
            0 <= from <= to <= line.len() && value == #[trigger] line.subrange(from, to),
{
    lemma_first_index_of(line, '=');
    let at = first_index_of(line, '=')->0;
    let left = line.take(at);
    let right = line.skip(at + 1);
    let (a, b) = lemma_trimmed_bounds(left);
    assert(left.subrange(a, b) =~= line.subrange(a, b));
    let (c, d) = lemma_trimmed_bounds(right);
    let text = trimmed(right);
    assert(right.subrange(c, d) =~= line.subrange(at + 1 + c, at + 1 + d));
    if unquoted(text) != text {
        assert(text.subrange(1, text.len() - 1) =~= line.subrange(at + 2 + c, at + d));
    }
}

/// Where the first standard location yields no document and the second
/// does, discovery yields the document of the second.
pub proof fn discovery_falls_back(
    first: Result<OsRelease, OsReleaseError>,
    second: Result<OsRelease, OsReleaseError>,
    r: Result<OsRelease, OsReleaseError>,
)
    requires
        first is Err,
        second is Ok,
        discovers(r, seq![first, second]),
    ensures
        r == second,
{
}

/// Where no location yields a document, discovery fails with `NoFile`,
/// whatever the failures of the attempts were.
pub proof fn discovery_exhausted(
    attempts: Seq<Result<OsRelease, OsReleaseError>>,
    r: Result<OsRelease, OsReleaseError>,
)
    requires
        forall|i: int| 0 <= i < attempts.len() ==> #[trigger] attempts[i] is Err,
        discovers(r, attempts),
    ensures
        r matches Err(e) && e is NoFile,
{
}

} // verus!
