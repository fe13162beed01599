//! Executable operations on string slices, each proved against the
//! character-level definitions of the grammar.

use vstd::prelude::*;
use vstd::string::StrSliceExecFns;
use vstd::std_specs::iter::IteratorSpec;
use vstd::string::StringSliceAdditionalSpecFns;
use vstd::utf8::encode_utf8_decode_utf8;
use crate::grammar::{first_index_of, is_whitespace, lines_of, trimmed};
use crate::lemmas::{
    lemma_first_index_of_is, lemma_first_index_of_none, lemma_lines_of_push,
    lemma_trimmed_subrange,
};

verus! {

/// `String::push` of the standard library appends one character to the end
/// of the string and changes nothing else.
pub assume_specification[ String::push ](s: &mut String, c: char)
    ensures
        final(s)@ == old(s)@.push(c),
;

/// Whether `c` is a whitespace character.
pub fn whitespace(c: char) -> (b: bool)
    ensures
        b == is_whitespace(c),
{
    let u: u32 = c as u32;
    if u < 0x0080 {
        (0x0009 <= u && u <= 0x000D) || u == 0x0020
    } else if u < 0x2000 {
        u == 0x0085 || u == 0x00A0 || u == 0x1680
    } else {
        u <= 0x200A || u == 0x2028 || u == 0x2029 || u == 0x202F || u == 0x205F || u == 0x3000
    }
}

/// The slice of `s` that is left when leading and trailing whitespace is removed.
pub fn trim(s: &str) -> (r: &str)
    ensures
        r@ == trimmed(s@),
{
    let n = s.unicode_len();
    let mut start: usize = n;
    let mut end: usize = n;
    let mut seen = false;
    let mut i: usize = 0;
    for c in it: s.chars()
        invariant
            it.seq() == s@,
            n == s@.len(),
            i == it.index(),
            !seen ==> start == n && end == n,
            !seen ==> forall|k: int| 0 <= k < i ==> is_whitespace(#[trigger] s@[k]),
            seen ==> start < end <= i,
            seen ==> !is_whitespace(s@[start as int]) && !is_whitespace(s@[end - 1]),
            seen ==> forall|k: int| 0 <= k < start ==> is_whitespace(#[trigger] s@[k]),
            seen ==> forall|k: int| end <= k < i ==> is_whitespace(#[trigger] s@[k]),
    {
        if !whitespace(c) {
            if !seen {
                start = i;
                seen = true;
            }
            end = i + 1;
        }
        i += 1;
    }
    proof {
        lemma_trimmed_subrange(s@, start as int, end as int);
    }
    s.substring_char(start, end)
}

/// The position, counted in characters, of the first `c` in `s`.
pub fn find(s: &str, c: char) -> (r: Option<usize>)
    ensures
        match r {
            Some(i) => i < s@.len() && first_index_of(s@, c) == Some(i as int),
            None => first_index_of(s@, c) is None,
        },
{
    let n = s.unicode_len();
    let mut i: usize = 0;
    for x in it: s.chars()
        invariant
            it.seq() == s@,
            n == s@.len(),
            i == it.index(),
            forall|k: int| 0 <= k < i ==> #[trigger] s@[k] != c,
    {
        if x == c {
            proof {
                lemma_first_index_of_is(s@, c, i as int);
            }
            return Some(i);
        }
        i += 1;
    }
    proof {
        lemma_first_index_of_none(s@, c);
    }
    None
}

/// Whether two string slices hold the same characters.
pub fn str_eq(a: &str, b: &str) -> (r: bool)
    ensures
        r == (a@ == b@),
{
    let x = a.as_bytes();
    let y = b.as_bytes();
    proof {
        encode_utf8_decode_utf8(a@);
        encode_utf8_decode_utf8(b@);
    }
    if x.len() != y.len() {
        return false;
    }
    let mut i: usize = 0;
    while i < x.len()
        invariant
            i <= x.len(),
            x.len() == y.len(),
            x@ == a.spec_bytes(),
            y@ == b.spec_bytes(),
            forall|k: int| 0 <= k < i ==> x@[k] == y@[k],
        decreases x.len() - i,
    {
        if x[i] != y[i] {
            return false;
        }
        i += 1;
    }
    assert(x@ =~= y@);
    true
}

/// The lines of `data`, split at its newline characters.
pub fn split_lines(data: &str) -> (lines: Vec<String>)
    ensures
        lines.deep_view() == lines_of(data@),
{
    let mut lines: Vec<String> = Vec::new();
    let mut current = String::new();
    proof {
        assert(data@.take(0) =~= Seq::<char>::empty());
    }
    for c in it: data.chars()
        invariant
            it.seq() == data@,
            lines.deep_view().push(current@) == lines_of(data@.take(it.index())),
    {
        proof {
            let done = data@.take(it.index());
            lemma_lines_of_push(done, c);
            assert(data@.take(it.index() + 1) =~= done.push(c));
        }
        if c == '\n' {
            lines.push(current);
            current = String::new();
        } else {
            current.push(c);
        }
    }
    proof {
        assert(data@.take(data@.len() as int) =~= data@);
    }
    lines.push(current);
    lines
}

} // verus!
