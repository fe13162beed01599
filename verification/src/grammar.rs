//! The os-release format as mathematics: what a line means and what a whole
//! text means, over sequences of characters.
//!
//! Everything here is ghost code: definitions that never run. The
//! executable parser in the other modules is proved to compute exactly these
//! functions.

use vstd::prelude::*;

verus! {

/// Whether `c` is whitespace as Unicode defines it (`White_Space`).
pub open spec fn is_whitespace(c: char) -> bool {
    let u = c as u32;
    ||| 0x0009 <= u <= 0x000D
    ||| u == 0x0020
    ||| u == 0x0085
    ||| u == 0x00A0
    ||| u == 0x1680
    ||| 0x2000 <= u <= 0x200A
    ||| u == 0x2028
    ||| u == 0x2029
    ||| u == 0x202F
    ||| u == 0x205F
    ||| u == 0x3000
}

/// `s` without its leading whitespace.
pub open spec fn trimmed_start(s: Seq<char>) -> Seq<char>
    decreases s.len(),
{
    if s.len() > 0 && is_whitespace(s.first()) {
        trimmed_start(s.drop_first())
    } else {
        s
    }
}

/// `s` without its trailing whitespace.
pub open spec fn trimmed_end(s: Seq<char>) -> Seq<char>
    decreases s.len(),
{
    if s.len() > 0 && is_whitespace(s.last()) {
        trimmed_end(s.drop_last())
    } else {
        s
    }
}

/// `s` without its leading and trailing whitespace.
pub open spec fn trimmed(s: Seq<char>) -> Seq<char> {
    trimmed_end(trimmed_start(s))
}

/// The position of the first `c` in `s`, if `s` holds one.
pub open spec fn first_index_of(s: Seq<char>, c: char) -> Option<int>
    decreases s.len(),
{
    if s.len() == 0 {
        None
    } else if s.first() == c {
        Some(0)
    } else {
        match first_index_of(s.drop_first(), c) {
            Some(i) => Some(i + 1),
            None => None,
        }
    }
}

/// The lines of a text: the pieces between its newline characters. A text
/// with n newlines has n + 1 lines, so the empty text has one empty line.
/// (The guard on the position always holds; it shows that the definition
/// terminates.)
pub open spec fn lines_of(s: Seq<char>) -> Seq<Seq<char>>
    decreases s.len(),
{
    match first_index_of(s, '\n') {
        Some(i) if 0 <= i < s.len() => seq![s.take(i)] + lines_of(s.skip(i + 1)),
        _ => seq![s],
    }
}

/// `line` without the carriage return that ends it, if one does.
pub open spec fn without_carriage_return(line: Seq<char>) -> Seq<char> {
    if line.len() > 0 && line.last() == '\r' {
        line.drop_last()
    } else {
        line
    }
}

/// The lines of `data` as reading line by line yields them: the text is cut
/// at its newlines, a carriage return just before a newline goes with it,
/// and nothing follows a final newline.
pub open spec fn lines_as_read(data: Seq<char>) -> Seq<Seq<char>> {
    let pieces = lines_of(data);
    let ended = pieces.drop_last().map_values(|line: Seq<char>| without_carriage_return(line));
    if pieces.last().len() == 0 {
        ended
    } else {
        ended.push(pieces.last())
    }
}

/// Whether `c` is one of the two characters that may wrap a value.
pub open spec fn is_quote(c: char) -> bool {
    c == '"' || c == '\''
}

/// `s` without the pair of equal quote characters that wraps it, if one
/// does. Only one pair is removed; a lone quote character stays as it is.
pub open spec fn unquoted(s: Seq<char>) -> Seq<char> {
    if s.len() >= 2 && is_quote(s.first()) && s.last() == s.first() {
        s.subrange(1, s.len() - 1)
    } else {
        s
    }
}

/// The key and the value of `s`, split at its first `=`: the key is the
/// trimmed text before it, the value the trimmed and unquoted text after it.
/// There is none where `s` holds no `=`.
pub open spec fn assignment(s: Seq<char>) -> Option<(Seq<char>, Seq<char>)> {
    match first_index_of(s, '=') {
        Some(i) => Some((trimmed(s.take(i)), unquoted(trimmed(s.skip(i + 1))))),
        None => None,
    }
}

/// What one line of an os-release text says.
pub enum Line {
    /// A blank line or a comment: it says nothing.
    Ignored,
    /// `key=value`.
    Assignment { key: Seq<char>, value: Seq<char> },
    /// Some content without a `=`.
    Malformed,
}

/// Whether a trimmed line is blank or a comment.
pub open spec fn is_ignorable(text: Seq<char>) -> bool {
    text.len() == 0 || text.first() == '#'
}

/// The meaning of the raw line `raw`.
pub open spec fn line_of(raw: Seq<char>) -> Line {
    let text = trimmed(raw);
    if is_ignorable(text) {
        Line::Ignored
    } else {
        match assignment(text) {
            Some((key, value)) => Line::Assignment { key, value },
            None => Line::Malformed,
        }
    }
}

/// The document that a sequence of lines describes: each assignment, taken
/// in order, sets its key to its value. There is none where a line is
/// malformed.
pub open spec fn document_of_lines(lines: Seq<Seq<char>>) -> Option<Map<Seq<char>, Seq<char>>>
    decreases lines.len(),
{
    if lines.len() == 0 {
        Some(Map::empty())
    } else {
        match (document_of_lines(lines.drop_last()), line_of(lines.last())) {
            (Some(document), Line::Ignored) => Some(document),
            (Some(document), Line::Assignment { key, value }) => Some(document.insert(key, value)),
            _ => None,
        }
    }
}

/// The document that the text `data` describes.
pub open spec fn document_of(data: Seq<char>) -> Option<Map<Seq<char>, Seq<char>>> {
    document_of_lines(lines_of(data))
}

} // verus!
