//! The parser of whole documents, and the choice among the standard locations.

use vstd::prelude::*;
use crate::document::OsRelease;
use crate::error::OsReleaseError;
use crate::grammar::{document_of, document_of_lines};
use crate::lemmas::lemma_document_of_lines_prefix;
use crate::line::parse_line;
use crate::text::split_lines;

verus! {

/// The standard locations of the os-release file, in the order in which
/// they are tried.
pub const PATHS: [&'static str; 2] = ["/etc/os-release", "/usr/lib/os-release"];

/// Whether `r` reports `expected`: the document where there is one, and a
/// `ParseError`, with no document at all, where there is none.
pub open spec fn reports(
    r: Result<OsRelease, OsReleaseError>,
    expected: Option<Map<Seq<char>, Seq<char>>>,
) -> bool {
    match r {
        Ok(document) => expected == Some(document@),
        Err(e) => e is ParseError && expected is None,
    }
}

/// Parses the lines of an os-release text. Blank lines and comments are
/// passed over; each assignment sets its key, a later one replacing an
/// earlier one; the first line that is neither makes the whole parse fail.
pub fn parse_impl(lines: &[String]) -> (r: Result<OsRelease, OsReleaseError>)
    ensures
        reports(r, document_of_lines(lines.deep_view())),
{
    let ghost all = lines.deep_view();
    let mut os_release = OsRelease::new();
    let mut i: usize = 0;
    while i < lines.len()
        invariant
            i <= lines@.len(),
            all == lines.deep_view(),
            document_of_lines(all.take(i as int)) == Some(os_release@),
        decreases lines@.len() - i,
    {
        proof {
            assert(all.take(i + 1).drop_last() =~= all.take(i as int));
        }
        match parse_line(lines[i].as_str()) {
            Ok(Some((variable, value))) => {
                os_release.insert(variable, value);
            },
            Ok(None) => {},
            Err(e) => {
                proof {
                    lemma_document_of_lines_prefix(all, i + 1);
                }
                return Err(e);
            },
        }
        i += 1;
    }
    proof {
        assert(all.take(i as int) =~= all);
    }
    Ok(os_release)
}

/// The text of a line as it came from a reader: a line that could not be
/// read counts as an empty line.
pub open spec fn text_of(line: Result<String, std::io::Error>) -> Seq<char> {
    match line {
        Ok(text) => text@,
        Err(_) => Seq::empty(),
    }
}

/// Parses the lines that a reader yielded. A line that could not be read is
/// taken as an empty line and so passed over; it does not make the parse fail.
pub fn parse_read_lines(lines: Vec<Result<String, std::io::Error>>) -> (r: Result<
    OsRelease,
    OsReleaseError,
>)
    ensures
        reports(
            r,
            document_of_lines(
                lines@.map_values(|line: Result<String, std::io::Error>| text_of(line)),
            ),
        ),
{
    let ghost texts = lines@.map_values(|line: Result<String, std::io::Error>| text_of(line));
    let mut readable: Vec<String> = Vec::new();
    for line in it: lines
        invariant
            it.seq() == lines@,
            texts == lines@.map_values(|line: Result<String, std::io::Error>| text_of(line)),
            readable.deep_view() == texts.take(it.index() as int),
    {
        let ghost before = readable.deep_view();
        let text = match line {
            Ok(text) => text,
            Err(_) => String::new(),
        };
        readable.push(text);
        assert(texts.take(it.index() + 1) =~= before.push(text@));
    }
    proof {
        assert(texts.take(lines@.len() as int) =~= texts);
    }
    parse_impl(readable.as_slice())
}

/// Parses the os-release text `data`.
pub fn parse_os_release_str(data: &str) -> (r: Result<OsRelease, OsReleaseError>)
    ensures
        reports(r, document_of(data@)),
{
    let lines = split_lines(data);
    parse_impl(lines.as_slice())
}

/// Whether `r` is what discovery makes of `attempts`: the document of the
/// first attempt that succeeded, or `NoFile` where every attempt failed.
pub open spec fn discovers(
    r: Result<OsRelease, OsReleaseError>,
    attempts: Seq<Result<OsRelease, OsReleaseError>>,
) -> bool {
    match r {
        Ok(document) => exists|i: int|
            0 <= i < attempts.len() && #[trigger] attempts[i] == Ok::<OsRelease, OsReleaseError>(
                document,
            ) && forall|j: int| 0 <= j < i ==> #[trigger] attempts[j] is Err,
        Err(e) => e is NoFile && forall|j: int|
            0 <= j < attempts.len() ==> #[trigger] attempts[j] is Err,
    }
}

/// The standard location to try next, given the outcomes of the attempts
/// made so far, in the order of `PATHS`. There is none once an attempt has
/// succeeded or every location has been tried.
pub fn next_path(attempts: &Vec<Result<OsRelease, OsReleaseError>>) -> (r: Option<&'static str>)
    ensures
        match r {
            Some(path) => {
                &&& attempts@.len() < PATHS@.len()
                &&& path@ == PATHS@[attempts@.len() as int]@
                &&& forall|j: int| 0 <= j < attempts@.len() ==> #[trigger] attempts@[j] is Err
            },
            None => {
                ||| attempts@.len() >= PATHS@.len()
                ||| exists|j: int| 0 <= j < attempts@.len() && #[trigger] attempts@[j] is Ok
            },
        },
{
    let mut i: usize = 0;
    while i < attempts.len()
        invariant
            i <= attempts@.len(),
            forall|j: int| 0 <= j < i ==> #[trigger] attempts@[j] is Err,
        decreases attempts@.len() - i,
    {
        if attempts[i].is_ok() {
            return None;
        }
        i += 1;
    }
    if attempts.len() < PATHS.len() {
        Some(PATHS[attempts.len()])
    } else {
        None
    }
}

/// Chooses among the outcomes of parsing the standard locations, given in
/// the order of `PATHS`: the first document that was read is the result.
/// Where none was read the result is `NoFile`, whatever made each attempt fail.
pub fn get_os_release(attempts: Vec<Result<OsRelease, OsReleaseError>>) -> (r: Result<
    OsRelease,
    OsReleaseError,
>)
    ensures
        discovers(r, attempts@),
{
    for attempt in it: attempts
        invariant
            it.seq() == attempts@,
            forall|j: int| 0 <= j < it.index() ==> #[trigger] attempts@[j] is Err,
    {
        if let Ok(os_release) = attempt {
            return Ok(os_release);
        }
    }
    Err(OsReleaseError::NoFile)
}

} // verus!
