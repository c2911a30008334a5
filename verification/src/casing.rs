//! Identifier-casing transforms shared by the code-generation backends.
//!
//! Type and variant names are written in upper-camel ("Pascal") form;
//! field names are written either in snake form (structural backend) or
//! in lower-camel form (explicit backend), per backend policy.

use crate::text::{is_ascii_upper, lower_char, push_char, to_lower_char, to_upper_char, upper_char};
use vstd::prelude::*;

verus! {

/// Upper-camel form of `s` from position `i` on: segments are split on
/// underscores, the first character of each segment is upper-cased,
/// the underscores are dropped.  `start` says whether position `i`
/// begins a segment.
pub open spec fn pascal_rec(s: Seq<char>, i: int, start: bool) -> Seq<char>
    decreases s.len() - i,
{
    if i < 0 || i >= s.len() {
        Seq::empty()
    } else if s[i] == '_' {
        pascal_rec(s, i + 1, true)
    } else if start {
        seq![to_upper_char(s[i])] + pascal_rec(s, i + 1, false)
    } else {
        seq![s[i]] + pascal_rec(s, i + 1, false)
    }
}

/// Upper-camel ("Pascal") form of an identifier.
pub open spec fn pascal_of(s: Seq<char>) -> Seq<char> {
    pascal_rec(s, 0, true)
}

/// Snake form of `s` from position `i` on: an underscore is written
/// before every upper-case letter except at the very start, and every
/// character is lower-cased.
pub open spec fn snake_rec(s: Seq<char>, i: int) -> Seq<char>
    decreases s.len() - i,
{
    if i < 0 || i >= s.len() {
        Seq::empty()
    } else if is_ascii_upper(s[i]) && i > 0 {
        seq!['_', to_lower_char(s[i])] + snake_rec(s, i + 1)
    } else {
        seq![to_lower_char(s[i])] + snake_rec(s, i + 1)
    }
}

/// Snake form of an identifier.
pub open spec fn snake_of(s: Seq<char>) -> Seq<char> {
    snake_rec(s, 0)
}

/// Lower-camel form of `s` from position `i` on: segments are split on
/// underscores and concatenated; the first character of the first
/// segment is lower-cased, the first character of every later segment
/// is upper-cased.  `start` says whether position `i` begins a
/// segment, `first` whether that segment is the first one.
pub open spec fn camel_rec(s: Seq<char>, i: int, start: bool, first: bool) -> Seq<char>
    decreases s.len() - i,
{
    if i < 0 || i >= s.len() {
        Seq::empty()
    } else if s[i] == '_' {
        camel_rec(s, i + 1, true, false)
    } else if start && first {
        seq![to_lower_char(s[i])] + camel_rec(s, i + 1, false, false)
    } else if start {
        seq![to_upper_char(s[i])] + camel_rec(s, i + 1, false, false)
    } else {
        seq![s[i]] + camel_rec(s, i + 1, false, first)
    }
}

/// Lower-camel form of an identifier.
pub open spec fn lower_camel_of(s: Seq<char>) -> Seq<char> {
    camel_rec(s, 0, true, true)
}

/// Converts an identifier to upper-camel form:
/// `type1` becomes `Type1`, `kiwiFruit` becomes `KiwiFruit`,
/// `alpha_beta` becomes `AlphaBeta`.
pub fn to_pascal_case(s: &str) -> (r: String)
    ensures
        r@ == pascal_of(s@),
{
    let n = s.unicode_len();
    let mut out = String::new();
    let mut start: bool = true;
    let mut i: usize = 0;
    while i < n
        invariant
            n == s@.len(),
            0 <= i <= n,
            pascal_of(s@) == out@ + pascal_rec(s@, i as int, start),
        decreases n - i,
    {
        let c = s.get_char(i);
        if c == '_' {
            start = true;
        } else if start {
            push_char(&mut out, upper_char(c));
            start = false;
        } else {
            push_char(&mut out, c);
        }
        i += 1;
    }
    out
}

/// Converts an identifier to snake form:
/// `alphaBeta` becomes `alpha_beta`, `alpha_beta` stays `alpha_beta`.
pub fn to_snake_case(s: &str) -> (r: String)
    ensures
        r@ == snake_of(s@),
{
    let n = s.unicode_len();
    let mut out = String::new();
    let mut i: usize = 0;
    while i < n
        invariant
            n == s@.len(),
            0 <= i <= n,
            snake_of(s@) == out@ + snake_rec(s@, i as int),
        decreases n - i,
    {
        let c = s.get_char(i);
        if 'A' <= c && c <= 'Z' {
            if i > 0 {
                push_char(&mut out, '_');
            }
            push_char(&mut out, lower_char(c));
        } else {
            push_char(&mut out, lower_char(c));
        }
        i += 1;
    }
    out
}

/// Converts an identifier to lower-camel form:
/// `alpha_beta` becomes `alphaBeta`, `AlphaBeta` becomes `alphaBeta`.
pub fn to_lower_camel_case(s: &str) -> (r: String)
    ensures
        r@ == lower_camel_of(s@),
{
    let n = s.unicode_len();
    let mut out = String::new();
    let mut start: bool = true;
    let mut first: bool = true;
    let mut i: usize = 0;
    while i < n
        invariant
            n == s@.len(),
            0 <= i <= n,
            lower_camel_of(s@) == out@ + camel_rec(s@, i as int, start, first),
        decreases n - i,
    {
        let c = s.get_char(i);
        if c == '_' {
            start = true;
            first = false;
        } else if start && first {
            push_char(&mut out, lower_char(c));
            start = false;
            first = false;
        } else if start {
            push_char(&mut out, upper_char(c));
            start = false;
            first = false;
        } else {
            push_char(&mut out, c);
        }
        i += 1;
    }
    out
}

} // verus!
