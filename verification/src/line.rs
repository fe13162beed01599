//! The parser of a single line.

use std::borrow::Cow;
use vstd::prelude::*;
use vstd::string::StrSliceExecFns;
use crate::error::OsReleaseError;
use crate::grammar::{assignment, line_of, unquoted, Line};
use crate::keys::{common_key, is_common_key};
use crate::text::{find, trim};

verus! {

/// `s` without the pair of equal quote characters that wraps it, if one does.
pub fn trim_quotes(s: &str) -> (r: &str)
    ensures
        r@ == unquoted(s@),
{
    let n = s.unicode_len();
    if n >= 2 {
        let first = s.get_char(0);
        let last = s.get_char(n - 1);
        if (first == '"' || first == '\'') && last == first {
            return s.substring_char(1, n - 1);
        }
    }
    s
}

/// Splits the trimmed line `s` at its first `=` into a key and a value. A
/// well-known key comes back as the shared constant, any other as a string of
/// its own.
pub fn extract_variable_and_value(s: &str) -> (r: Result<
    (Cow<'static, str>, String),
    OsReleaseError,
>)
    ensures
        match r {
            Ok((variable, value)) => {
                &&& assignment(s@) == Some((variable@, value@))
                &&& variable is Borrowed <==> is_common_key(variable@)
            },
            Err(e) => e is ParseError && assignment(s@) is None,
        },
{
    match find(s, '=') {
        None => Err(OsReleaseError::ParseError),
        Some(equal) => {
            let n = s.unicode_len();
            let variable = trim(s.substring_char(0, equal));
            let value = trim_quotes(trim(s.substring_char(equal + 1, n))).to_owned();
            match common_key(variable) {
                Some(shared) => Ok((Cow::Borrowed(shared), value)),
                None => Ok((Cow::Owned(variable.to_owned()), value)),
            }
        },
    }
}

/// Parses the raw line `raw`: a blank line or a comment yields `None`, an
/// assignment its key and value, anything else a `ParseError`.
pub fn parse_line(raw: &str) -> (r: Result<Option<(Cow<'static, str>, String)>, OsReleaseError>)
    ensures
        match r {
            Ok(None) => line_of(raw@) is Ignored,
            Ok(Some((key, value))) => {
                &&& line_of(raw@) == (Line::Assignment { key: key@, value: value@ })
                &&& key is Borrowed <==> is_common_key(key@)
            },
            Err(e) => e is ParseError && line_of(raw@) is Malformed,
        },
{
    let line = trim(raw);
    if line.is_empty() || line.get_char(0) == '#' {
        return Ok(None);
    }
    match extract_variable_and_value(line) {
        Ok(pair) => Ok(Some(pair)),
        Err(e) => Err(e),
    }
}

} // verus!
