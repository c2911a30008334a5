//! Character, string and decimal-number text utilities shared by the
//! parser, the error renderer and the code-generation backends.

use vstd::prelude::*;
use vstd::string::*;

verus! {

/// True for the ASCII lower-case letters.
pub open spec fn is_ascii_lower(c: char) -> bool {
    'a' <= c && c <= 'z'
}

/// True for the ASCII upper-case letters.
pub open spec fn is_ascii_upper(c: char) -> bool {
    'A' <= c && c <= 'Z'
}

/// ASCII upper-casing of one character; anything but a lower-case
/// ASCII letter is unchanged.
pub open spec fn to_upper_char(c: char) -> char {
    if is_ascii_lower(c) {
        (((c as u32) - 32) as u8) as char
    } else {
        c
    }
}

/// ASCII lower-casing of one character; anything but an upper-case
/// ASCII letter is unchanged.
pub open spec fn to_lower_char(c: char) -> char {
    if is_ascii_upper(c) {
        (((c as u32) + 32) as u8) as char
    } else {
        c
    }
}

pub fn upper_char(c: char) -> (r: char)
    ensures
        r == to_upper_char(c),
{
    if 'a' <= c && c <= 'z' {
        (((c as u32) - 32) as u8) as char
    } else {
        c
    }
}

pub fn lower_char(c: char) -> (r: char)
    ensures
        r == to_lower_char(c),
{
    if 'A' <= c && c <= 'Z' {
        (((c as u32) + 32) as u8) as char
    } else {
        c
    }
}

/// Character-wise string equality.
pub fn str_eq(a: &str, b: &str) -> (r: bool)
    ensures
        r == (a@ == b@),
{
    let n = a.unicode_len();
    let m = b.unicode_len();
    if n != m {
        proof {
            assert(a@ != b@);
        }
        return false;
    }
    let mut i: usize = 0;
    while i < n
        invariant
            n == a@.len(),
            n == b@.len(),
            0 <= i <= n,
            forall|j: int| 0 <= j < i ==> a@[j] == b@[j],
        decreases n - i,
    {
        let ca = a.get_char(i);
        let cb = b.get_char(i);
        if ca != cb {
            return false;
        }
        i += 1;
    }
    proof {
        assert(a@ =~= b@);
    }
    true
}

/// Copy of a borrowed string.
pub fn clone_string(s: &str) -> (r: String)
    ensures
        r@ == s@,
{
    String::from_str(s)
}

/// Append one character to a string.
/// Relies on std's String::push: appends the character to the end.
#[verifier::external_body]
pub fn push_char(s: &mut String, c: char)
    ensures
        final(s)@ == old(s)@.push(c),
{
    s.push(c);
}

/// The character for a single decimal digit.
pub open spec fn digit_char(d: int) -> char
    recommends
        0 <= d <= 9,
{
    ((48 + d) as u8) as char
}

/// The decimal digits of a non-negative number, most significant first.
pub open spec fn dec_digits(n: int) -> Seq<char>
    recommends
        n >= 0,
    decreases n,
{
    if n < 10 {
        seq![digit_char(n)]
    } else {
        dec_digits(n / 10).push(digit_char(n % 10))
    }
}

/// The decimal rendering of a signed number: a minus sign where the
/// number is negative, then its digits.
pub open spec fn dec_int_str(n: int) -> Seq<char> {
    if n < 0 {
        seq!['-'] + dec_digits(-n)
    } else {
        dec_digits(n)
    }
}

pub fn u64_to_string(n: u64) -> (r: String)
    ensures
        r@ == dec_digits(n as int),
{
    let mut digits: Vec<char> = Vec::new();
    let mut m: u64 = n;
    while m >= 10
        invariant
            dec_digits(n as int) == dec_digits(m as int) + digits@.reverse(),
        decreases m,
    {
        let d: char = (((m % 10) as u8) + 48) as char;
        proof {
            assert(d == digit_char(m as int % 10));
            assert(digits@.push(d).reverse() =~= seq![d] + digits@.reverse());
            assert(dec_digits(m as int) == dec_digits(m as int / 10).push(digit_char(m as int % 10)));
            assert(dec_digits(m as int / 10).push(d) + digits@.reverse() =~= dec_digits(
                m as int / 10,
            ) + (seq![d] + digits@.reverse()));
        }
        digits.push(d);
        m = m / 10;
    }
    let mut out = String::new();
    let first: char = ((m as u8) + 48) as char;
    proof {
        assert(dec_digits(m as int) =~= seq![digit_char(m as int)]);
        assert(first == digit_char(m as int));
    }
    push_char(&mut out, first);
    let mut i: usize = digits.len();
    proof {
        assert(digits@.subrange(i as int, digits@.len() as int).reverse() =~= Seq::<
            char,
        >::empty());
        assert(out@ =~= seq![digit_char(m as int)]);
    }
    while i > 0
        invariant
            i <= digits@.len(),
            out@ == seq![digit_char(m as int)] + digits@.subrange(
                i as int,
                digits@.len() as int,
            ).reverse(),
            dec_digits(n as int) == dec_digits(m as int) + digits@.reverse(),
            dec_digits(m as int) == seq![digit_char(m as int)],
        decreases i,
    {
        i = i - 1;
        let c = digits[i];
        push_char(&mut out, c);
        proof {
            assert(digits@.subrange(i as int, digits@.len() as int).reverse() =~= digits@.subrange(
                i as int + 1,
                digits@.len() as int,
            ).reverse().push(digits@[i as int]));
        }
    }
    proof {
        assert(digits@.subrange(0, digits@.len() as int) =~= digits@);
        assert(out@ =~= dec_digits(n as int));
    }
    out
}

pub fn usize_to_string(n: usize) -> (r: String)
    ensures
        r@ == dec_digits(n as int),
{
    u64_to_string(n as u64)
}

pub fn i64_to_string(n: i64) -> (r: String)
    ensures
        r@ == dec_int_str(n as int),
{
    if n >= 0 {
        u64_to_string(n as u64)
    } else {
        let mag: u64 = ((-(n + 1)) as u64) + 1;
        let mut out = String::new();
        push_char(&mut out, '-');
        let m = u64_to_string(mag);
        out.append(m.as_str());
        proof {
            assert(mag as int == -(n as int));
            assert(out@ =~= seq!['-'] + dec_digits(-(n as int)));
        }
        out
    }
}

/// The characters of a string, as a vector.
pub fn str_to_chars(s: &str) -> (r: Vec<char>)
    ensures
        r@ == s@,
{
    let n = s.unicode_len();
    let mut out: Vec<char> = Vec::new();
    let mut i: usize = 0;
    while i < n
        invariant
            n == s@.len(),
            0 <= i <= n,
            out@ == s@.take(i as int),
        decreases n - i,
    {
        out.push(s.get_char(i));
        proof {
            assert(out@ =~= s@.take(i as int + 1));
        }
        i += 1;
    }
    proof {
        assert(s@.take(n as int) =~= s@);
    }
    out
}

} // verus!
