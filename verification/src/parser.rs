//! The recursive-descent parser of the schema grammar: a mandatory
//! leading metadata block, then enum and struct declarations to the
//! end of input.  The first syntactic failure aborts the whole parse
//! with the offending text and its location; there is no recovery.

use crate::ast::{
    BuiltinType, DeclarationView, FieldTypeView, FloatType, IntegerType, IntegerValue,
    MetadataValueView, SchemaView,
};
use crate::error::{GenoError, GenoErrorView, Location};
use crate::lexer::{tokens_view, Token, TokenKind, TokenKindView, TokenView};
use crate::text::{clone_string, str_eq};
use vstd::prelude::*;
use vstd::string::*;

verus! {

/// The value of one digit under a radix, where it is a digit of that
/// radix at all.
pub open spec fn digit_val(c: char, radix: int) -> Option<int> {
    let v: int = if '0' <= c && c <= '9' {
        (c as u32) as int - ('0' as u32) as int
    } else if 'a' <= c && c <= 'f' {
        (c as u32) as int - ('a' as u32) as int + 10
    } else if 'A' <= c && c <= 'F' {
        (c as u32) as int - ('A' as u32) as int + 10
    } else {
        -1
    };
    if 0 <= v < radix {
        Some(v)
    } else {
        None
    }
}

/// The value of a digit string under a radix, or nothing where the
/// string is empty or holds a character that is no digit of the radix.
pub open spec fn digits_val(t: Seq<char>, radix: int) -> Option<int>
    decreases t.len(),
{
    if t.len() == 0 {
        None
    } else {
        let last = digit_val(t.last(), radix);
        if t.len() == 1 {
            last
        } else {
            match (digits_val(t.drop_last(), radix), last) {
                (Some(v), Some(d)) => Some(v * radix + d),
                _ => None,
            }
        }
    }
}

/// The integer value of a literal's raw text: a `0x` prefix reads the
/// rest as unsigned 64-bit hex, a `0b` prefix as unsigned 64-bit
/// binary, anything else as signed 64-bit decimal.  A malformed digit
/// is a format fault (`Err(false)`), a value out of the target range a
/// range fault (`Err(true)`).
pub open spec fn lit_value(t: Seq<char>) -> Result<IntegerValue, bool> {
    if t.len() >= 2 && t[0] == '0' && t[1] == 'x' {
        match digits_val(t.skip(2), 16) {
            None => Err(false),
            Some(v) => if v <= u64::MAX {
                Ok(IntegerValue::U64(v as u64))
            } else {
                Err(true)
            },
        }
    } else if t.len() >= 2 && t[0] == '0' && t[1] == 'b' {
        match digits_val(t.skip(2), 2) {
            None => Err(false),
            Some(v) => if v <= u64::MAX {
                Ok(IntegerValue::U64(v as u64))
            } else {
                Err(true)
            },
        }
    } else if t.len() >= 1 && t[0] == '-' {
        match digits_val(t.skip(1), 10) {
            None => Err(false),
            Some(v) => if v <= 0x8000000000000000 {
                Ok(IntegerValue::I64((-v) as i64))
            } else {
                Err(true)
            },
        }
    } else {
        match digits_val(t, 10) {
            None => Err(false),
            Some(v) => if v <= i64::MAX {
                Ok(IntegerValue::I64(v as i64))
            } else {
                Err(true)
            },
        }
    }
}

/// The value of an array fixed-length token: plain decimal digits that
/// fit the machine's size type; anything else is out of range.
pub open spec fn len_value(t: Seq<char>) -> Option<usize> {
    match digits_val(t, 10) {
        None => None,
        Some(v) => if v <= usize::MAX {
            Some(v as usize)
        } else {
            None
        },
    }
}

proof fn lemma_digits_val_invalid(t: Seq<char>, radix: int, k: int)
    requires
        0 <= k < t.len(),
        digit_val(t[k], radix) is None,
    ensures
        digits_val(t, radix) is None,
    decreases t.len(),
{
    if t.len() > 1 && k < t.len() - 1 {
        lemma_digits_val_invalid(t.drop_last(), radix, k);
    }
}

fn digit_value(c: char, radix: u64) -> (r: Option<u64>)
    requires
        2 <= radix <= 16,
    ensures
        match r {
            Some(d) => digit_val(c, radix as int) == Some(d as int) && d < radix,
            None => digit_val(c, radix as int) is None,
        },
{
    if '0' <= c && c <= '9' {
        let v: u64 = ((c as u32) - ('0' as u32)) as u64;
        if v < radix {
            Some(v)
        } else {
            None
        }
    } else if 'a' <= c && c <= 'f' {
        let v: u64 = ((c as u32) - ('a' as u32)) as u64 + 10;
        if v < radix {
            Some(v)
        } else {
            None
        }
    } else if 'A' <= c && c <= 'F' {
        let v: u64 = ((c as u32) - ('A' as u32)) as u64 + 10;
        if v < radix {
            Some(v)
        } else {
            None
        }
    } else {
        None
    }
}

/// Reads the digits of `text` from position `start` on under a radix:
/// the value where it fits an unsigned 64-bit number, a range fault
/// (`Err(true)`) where it does not, a format fault (`Err(false)`)
/// where a character is no digit or no digits follow.
#[verifier::loop_isolation(false)]
fn digits_value_u64(text: &str, start: usize, radix: u64) -> (r: Result<u64, bool>)
    requires
        2 <= radix <= 16,
        start <= text@.len(),
    ensures
        ({
            let dv = digits_val(text@.skip(start as int), radix as int);
            match r {
                Ok(v) => dv == Some(v as int),
                Err(of) => if of {
                    dv matches Some(w) && w > u64::MAX
                } else {
                    dv is None
                },
            }
        }),
{
    let ghost sub = text@.skip(start as int);
    let n = text.unicode_len();
    if start == n {
        return Err(false);
    }
    let mut acc: u64 = 0;
    let mut of: bool = false;
    let mut k: usize = 0;
    while start + k < n
        invariant
            start < n == text@.len(),
            0 <= k <= sub.len(),
            sub.len() == n - start,
            k >= 1 ==> (match digits_val(sub.take(k as int), radix as int) {
                Some(v) => if of {
                    v > u64::MAX
                } else {
                    v == acc as int
                },
                None => false,
            }),
            k == 0 ==> acc == 0 && !of,
        decreases n - start - k,
    {
        let c = text.get_char(start + k);
        proof {
            assert(sub[k as int] == text@[start + k]);
        }
        match digit_value(c, radix) {
            None => {
                proof {
                    lemma_digits_val_invalid(sub, radix as int, k as int);
                }
                return Err(false);
            },
            Some(d) => {
                let ghost prev = digits_val(sub.take(k as int), radix as int);
                proof {
                    assert(sub.take(k as int + 1).drop_last() =~= sub.take(k as int));
                    assert(sub.take(k as int + 1).last() == sub[k as int]);
                }
                if of {
                    proof {
                        let v = prev->Some_0;
                        assert(v * radix + d > u64::MAX) by (nonlinear_arith)
                            requires
                                v > u64::MAX,
                                radix >= 2,
                                d >= 0,
                        ;
                    }
                } else if k == 0 {
                    acc = d;
                } else if acc > (u64::MAX - d) / radix {
                    proof {
                        let v = acc as int;
                        assert(v * radix + d > u64::MAX) by (nonlinear_arith)
                            requires
                                v > (u64::MAX - d) / (radix as int),
                                2 <= radix <= 16,
                                0 <= d < radix,
                        ;
                    }
                    of = true;
                } else {
                    proof {
                        let v = acc as int;
                        assert(v * radix + d <= u64::MAX) by (nonlinear_arith)
                            requires
                                v <= (u64::MAX - d) / (radix as int),
                                2 <= radix <= 16,
                                0 <= d < radix,
                        ;
                    }
                    acc = acc * radix + d;
                }
                k = k + 1;
            },
        }
    }
    proof {
        assert(sub.take(k as int) =~= sub);
    }
    if of {
        Err(true)
    } else {
        Ok(acc)
    }
}

/// Reads an integer literal's raw text into a typed value, per the
/// radix implied by its prefix; a malformed digit is a format fault
/// (`Err(false)`), a value out of range a range fault (`Err(true)`).
pub fn parse_integer_literal(text: &str) -> (r: Result<IntegerValue, bool>)
    ensures
        match r {
            Ok(v) => lit_value(text@) == Ok::<IntegerValue, bool>(v),
            Err(b) => lit_value(text@) == Err::<IntegerValue, bool>(b),
        },
{
    let n = text.unicode_len();
    if n >= 2 && text.get_char(0) == '0' && text.get_char(1) == 'x' {
        match digits_value_u64(text, 2, 16) {
            Ok(v) => Ok(IntegerValue::U64(v)),
            Err(of) => Err(of),
        }
    } else if n >= 2 && text.get_char(0) == '0' && text.get_char(1) == 'b' {
        match digits_value_u64(text, 2, 2) {
            Ok(v) => Ok(IntegerValue::U64(v)),
            Err(of) => Err(of),
        }
    } else if n >= 1 && text.get_char(0) == '-' {
        match digits_value_u64(text, 1, 10) {
            Ok(v) => {
                if v < 0x8000000000000000 {
                    Ok(IntegerValue::I64(-(v as i64)))
                } else if v == 0x8000000000000000 {
                    Ok(IntegerValue::I64(i64::MIN))
                } else {
                    Err(true)
                }
            },
            Err(of) => Err(of),
        }
    } else {
        proof {
            assert(text@.skip(0) =~= text@);
        }
        match digits_value_u64(text, 0, 10) {
            Ok(v) => {
                if v <= 0x7fffffffffffffff {
                    Ok(IntegerValue::I64(v as i64))
                } else {
                    Err(true)
                }
            },
            Err(of) => Err(of),
        }
    }
}

/// Reads an array fixed-length token: plain decimal digits that fit
/// the machine's size type.
pub fn parse_array_length(text: &str) -> (r: Option<usize>)
    ensures
        r == len_value(text@),
{
    let n = text.unicode_len();
    if n == 0 {
        return None;
    }
    let c0 = text.get_char(0);
    if !('0' <= c0 && c0 <= '9') {
        proof {
            assert(text@.skip(0) =~= text@);
            if text@.len() > 0 {
                lemma_digits_val_invalid(text@, 10, 0);
            }
        }
        return None;
    }
    proof {
        assert(text@.skip(0) =~= text@);
    }
    match digits_value_u64(text, 0, 10) {
        Ok(v) => {
            if v <= usize::MAX as u64 {
                Some(v as usize)
            } else {
                None
            }
        },
        Err(_) => None,
    }
}

/// The integer type a source-level name denotes, if any.
pub open spec fn int_type_of_name(t: Seq<char>) -> Option<IntegerType> {
    if t == "i8"@ {
        Some(IntegerType::I8)
    } else if t == "i16"@ {
        Some(IntegerType::I16)
    } else if t == "i32"@ {
        Some(IntegerType::I32)
    } else if t == "i64"@ {
        Some(IntegerType::I64)
    } else if t == "u8"@ {
        Some(IntegerType::U8)
    } else if t == "u16"@ {
        Some(IntegerType::U16)
    } else if t == "u32"@ {
        Some(IntegerType::U32)
    } else if t == "u64"@ {
        Some(IntegerType::U64)
    } else {
        None
    }
}

/// The builtin type a source-level name denotes, if any.
pub open spec fn builtin_of_name(t: Seq<char>) -> Option<BuiltinType> {
    match int_type_of_name(t) {
        Some(it) => Some(BuiltinType::Integer(it)),
        None => if t == "f32"@ {
            Some(BuiltinType::Float(FloatType::F32))
        } else if t == "f64"@ {
            Some(BuiltinType::Float(FloatType::F64))
        } else if t == "string"@ {
            Some(BuiltinType::String)
        } else if t == "bool"@ {
            Some(BuiltinType::Bool)
        } else {
            None
        },
    }
}

/// The source text a token stands for, as reported in a parse error.
pub open spec fn tok_text(k: TokenKindView) -> Seq<char> {
    match k {
        TokenKindView::Ident(t) => t,
        TokenKindView::IntLit(t) => t,
        TokenKindView::StrLit(t) => t,
        TokenKindView::LBrace => "{"@,
        TokenKindView::RBrace => "}"@,
        TokenKindView::LBracket => "["@,
        TokenKindView::RBracket => "]"@,
        TokenKindView::Colon => ":"@,
        TokenKindView::Semi => ";"@,
        TokenKindView::Comma => ","@,
        TokenKindView::Question => "?"@,
        TokenKindView::Eq => "="@,
        TokenKindView::End => Seq::empty(),
    }
}

/// The location of a token.
pub open spec fn tok_loc(t: TokenView) -> Location {
    Location { line: t.line, column: t.col }
}

/// The parse error reported at a token.
pub open spec fn parse_err(t: TokenView, f: Seq<char>) -> GenoErrorView {
    GenoErrorView::Parse { content: tok_text(t.kind), file: f, location: tok_loc(t) }
}

/// The number-format error reported at a literal token.
pub open spec fn format_err(t: TokenView, text: Seq<char>, f: Seq<char>) -> GenoErrorView {
    GenoErrorView::NumberFormat { content: text, file: f, location: tok_loc(t) }
}

/// The number-range error reported at a literal token.
pub open spec fn range_err(t: TokenView, text: Seq<char>, f: Seq<char>) -> GenoErrorView {
    GenoErrorView::NumberRange { content: text, file: f, location: tok_loc(t) }
}

/// The error reported at a position no well-formed token stream
/// reaches.
pub open spec fn bounds_err(f: Seq<char>) -> GenoErrorView {
    GenoErrorView::Parse {
        content: Seq::empty(),
        file: f,
        location: Location { line: 0, column: 0 },
    }
}

/// An optional `?` suffix: whether it is present, and the position
/// after it.
pub open spec fn sp_nullable(ts: Seq<TokenView>, i: int) -> (bool, int) {
    if 0 <= i < ts.len() && ts[i].kind is Question {
        (true, i + 1)
    } else {
        (false, i)
    }
}

/// A field-type expression: a builtin name, a user-defined type name,
/// `[` element `]` or `[` element `;` length `]` for an array, or
/// `{` builtin-key `:` value `}` for a map, each with an optional `?`
/// suffix for nullability on the outermost constructor.
pub open spec fn sp_field_type(ts: Seq<TokenView>, i: int, f: Seq<char>) -> Result<
    (FieldTypeView, int),
    GenoErrorView,
>
    decreases ts.len() - i, 0int,
{
    if !(0 <= i < ts.len()) {
        Err(bounds_err(f))
    } else {
        match ts[i].kind {
            TokenKindView::Ident(name) => {
                let (nullable, j) = sp_nullable(ts, i + 1);
                match builtin_of_name(name) {
                    Some(bt) => Ok((FieldTypeView::Builtin(bt, nullable), j)),
                    None => Ok((FieldTypeView::UserDefined(name, nullable), j)),
                }
            },
            TokenKindView::LBracket => {
                if !(i + 1 < ts.len()) {
                    Err(bounds_err(f))
                } else {
                    match sp_field_type(ts, i + 1, f) {
                        Err(e) => Err(e),
                        Ok((elem, j)) => {
                            if !(i + 1 < j < ts.len()) {
                                Err(bounds_err(f))
                            } else {
                                match ts[j].kind {
                                    TokenKindView::RBracket => {
                                        let (nullable, k) = sp_nullable(ts, j + 1);
                                        Ok(
                                            (
                                                FieldTypeView::Array(
                                                    Box::new(elem),
                                                    None,
                                                    nullable,
                                                ),
                                                k,
                                            ),
                                        )
                                    },
                                    TokenKindView::Semi => {
                                        if !(j + 1 < ts.len()) {
                                            Err(bounds_err(f))
                                        } else {
                                            match ts[j + 1].kind {
                                                TokenKindView::IntLit(text) => {
                                                    match len_value(text) {
                                                        None => Err(
                                                            range_err(ts[j + 1], text, f),
                                                        ),
                                                        Some(l) => {
                                                            if !(j + 2 < ts.len()) {
                                                                Err(bounds_err(f))
                                                            } else if ts[j + 2].kind
                                                                is RBracket {
                                                                let (nullable, k) = sp_nullable(
                                                                    ts,
                                                                    j + 3,
                                                                );
                                                                Ok(
                                                                    (
                                                                        FieldTypeView::Array(
                                                                            Box::new(elem),
                                                                            Some(l),
                                                                            nullable,
                                                                        ),
                                                                        k,
                                                                    ),
                                                                )
                                                            } else {
                                                                Err(parse_err(ts[j + 2], f))
                                                            }
                                                        },
                                                    }
                                                },
                                                _ => Err(parse_err(ts[j + 1], f)),
                                            }
                                        }
                                    },
                                    _ => Err(parse_err(ts[j], f)),
                                }
                            }
                        },
                    }
                }
            },
            TokenKindView::LBrace => {
                if !(i + 1 < ts.len()) {
                    Err(bounds_err(f))
                } else {
                    match ts[i + 1].kind {
                        TokenKindView::Ident(kname) => match builtin_of_name(kname) {
                            None => Err(parse_err(ts[i + 1], f)),
                            Some(key) => {
                                if !(i + 2 < ts.len()) {
                                    Err(bounds_err(f))
                                } else if !(ts[i + 2].kind is Colon) {
                                    Err(parse_err(ts[i + 2], f))
                                } else if !(i + 3 < ts.len()) {
                                    Err(bounds_err(f))
                                } else {
                                    match sp_field_type(ts, i + 3, f) {
                                        Err(e) => Err(e),
                                        Ok((value, j)) => {
                                            if !(i + 3 < j < ts.len()) {
                                                Err(bounds_err(f))
                                            } else if ts[j].kind is RBrace {
                                                let (nullable, k) = sp_nullable(ts, j + 1);
                                                Ok(
                                                    (
                                                        FieldTypeView::Mapping(
                                                            key,
                                                            Box::new(value),
                                                            nullable,
                                                        ),
                                                        k,
                                                    ),
                                                )
                                            } else {
                                                Err(parse_err(ts[j], f))
                                            }
                                        },
                                    }
                                }
                            },
                        },
                        _ => Err(parse_err(ts[i + 1], f)),
                    }
                }
            },
            _ => Err(parse_err(ts[i], f)),
        }
    }
}

/// A struct's field list up to its closing brace: `name: field_type`
/// entries separated by commas, a trailing comma allowed; the returned
/// position is at the closing brace.
pub open spec fn sp_field_list(ts: Seq<TokenView>, i: int, f: Seq<char>) -> Result<
    (Seq<(Seq<char>, FieldTypeView)>, int),
    GenoErrorView,
>
    decreases ts.len() - i, 1int,
{
    if !(0 <= i < ts.len()) {
        Err(bounds_err(f))
    } else {
        match ts[i].kind {
            TokenKindView::RBrace => Ok((Seq::empty(), i)),
            TokenKindView::Ident(name) => {
                if !(i + 1 < ts.len()) {
                    Err(bounds_err(f))
                } else if !(ts[i + 1].kind is Colon) {
                    Err(parse_err(ts[i + 1], f))
                } else {
                    match sp_field_type(ts, i + 2, f) {
                        Err(e) => Err(e),
                        Ok((ft, j)) => {
                            if !(i + 2 <= j < ts.len()) {
                                Err(bounds_err(f))
                            } else {
                                match ts[j].kind {
                                    TokenKindView::RBrace => Ok((seq![(name, ft)], j)),
                                    TokenKindView::Comma => {
                                        if j + 1 > i {
                                            match sp_field_list(ts, j + 1, f) {
                                                Err(e) => Err(e),
                                                Ok((rest, k)) => Ok(
                                                    (seq![(name, ft)] + rest, k),
                                                ),
                                            }
                                        } else {
                                            Err(bounds_err(f))
                                        }
                                    },
                                    _ => Err(parse_err(ts[j], f)),
                                }
                            }
                        },
                    }
                }
            },
            _ => Err(parse_err(ts[i], f)),
        }
    }
}

/// An enum's variant list up to its closing brace: `name` or
/// `name = literal` entries separated by commas, a trailing comma
/// allowed; the returned position is at the closing brace.
pub open spec fn sp_variant_list(ts: Seq<TokenView>, i: int, f: Seq<char>) -> Result<
    (Seq<(Seq<char>, Option<IntegerValue>)>, int),
    GenoErrorView,
>
    decreases ts.len() - i,
{
    if !(0 <= i < ts.len()) {
        Err(bounds_err(f))
    } else {
        match ts[i].kind {
            TokenKindView::RBrace => Ok((Seq::empty(), i)),
            TokenKindView::Ident(name) => {
                if !(i + 1 < ts.len()) {
                    Err(bounds_err(f))
                } else {
                    let with_value: Result<(Option<IntegerValue>, int), GenoErrorView> = match ts[
                        i + 1
                    ].kind {
                        TokenKindView::Eq => {
                            if !(i + 2 < ts.len()) {
                                Err(bounds_err(f))
                            } else {
                                match ts[i + 2].kind {
                                    TokenKindView::IntLit(text) => match lit_value(text) {
                                        Ok(v) => Ok((Some(v), i + 3)),
                                        Err(true) => Err(range_err(ts[i + 2], text, f)),
                                        Err(false) => Err(format_err(ts[i + 2], text, f)),
                                    },
                                    _ => Err(parse_err(ts[i + 2], f)),
                                }
                            }
                        },
                        _ => Ok((None, i + 1)),
                    };
                    match with_value {
                        Err(e) => Err(e),
                        Ok((value, j)) => {
                            if !(i < j < ts.len()) {
                                Err(bounds_err(f))
                            } else {
                                match ts[j].kind {
                                    TokenKindView::RBrace => Ok((seq![(name, value)], j)),
                                    TokenKindView::Comma => match sp_variant_list(ts, j + 1, f) {
                                        Err(e) => Err(e),
                                        Ok((rest, k)) => Ok((seq![(name, value)] + rest, k)),
                                    },
                                    _ => Err(parse_err(ts[j], f)),
                                }
                            }
                        },
                    }
                }
            },
            _ => Err(parse_err(ts[i], f)),
        }
    }
}

/// Inserts one metadata entry, replacing the value of an existing key
/// in place so that keys stay unique and the last value wins.
pub open spec fn meta_upsert(
    ms: Seq<(Seq<char>, MetadataValueView)>,
    k: Seq<char>,
    v: MetadataValueView,
) -> Seq<(Seq<char>, MetadataValueView)>
    decreases ms.len(),
{
    if ms.len() == 0 {
        seq![(k, v)]
    } else if ms[0].0 == k {
        seq![(k, v)] + ms.skip(1)
    } else {
        seq![ms[0]] + meta_upsert(ms.skip(1), k, v)
    }
}

/// The entries of the metadata block up to its closing brace:
/// `name = literal` entries separated by commas, a trailing comma
/// allowed; the returned position is just past the closing brace.
pub open spec fn sp_meta_entries(
    ts: Seq<TokenView>,
    i: int,
    acc: Seq<(Seq<char>, MetadataValueView)>,
    f: Seq<char>,
) -> Result<(Seq<(Seq<char>, MetadataValueView)>, int), GenoErrorView>
    decreases ts.len() - i,
{
    if !(0 <= i < ts.len()) {
        Err(bounds_err(f))
    } else {
        match ts[i].kind {
            TokenKindView::RBrace => Ok((acc, i + 1)),
            TokenKindView::Ident(name) => {
                if !(i + 1 < ts.len()) {
                    Err(bounds_err(f))
                } else if !(ts[i + 1].kind is Eq) {
                    Err(parse_err(ts[i + 1], f))
                } else if !(i + 2 < ts.len()) {
                    Err(bounds_err(f))
                } else {
                    let value: Result<MetadataValueView, GenoErrorView> = match ts[i + 2].kind {
                        TokenKindView::StrLit(text) => Ok(MetadataValueView::String(text)),
                        TokenKindView::IntLit(text) => match lit_value(text) {
                            Ok(v) => Ok(MetadataValueView::Integer(v)),
                            Err(true) => Err(range_err(ts[i + 2], text, f)),
                            Err(false) => Err(format_err(ts[i + 2], text, f)),
                        },
                        _ => Err(parse_err(ts[i + 2], f)),
                    };
                    match value {
                        Err(e) => Err(e),
                        Ok(v) => {
                            if !(i + 3 < ts.len()) {
                                Err(bounds_err(f))
                            } else {
                                match ts[i + 3].kind {
                                    TokenKindView::RBrace => Ok(
                                        (meta_upsert(acc, name, v), i + 4),
                                    ),
                                    TokenKindView::Comma => sp_meta_entries(
                                        ts,
                                        i + 4,
                                        meta_upsert(acc, name, v),
                                        f,
                                    ),
                                    _ => Err(parse_err(ts[i + 3], f)),
                                }
                            }
                        },
                    }
                }
            },
            _ => Err(parse_err(ts[i], f)),
        }
    }
}

/// The mandatory leading metadata block: `meta { entries }`; the
/// returned position is just past the closing brace.
pub open spec fn sp_meta(ts: Seq<TokenView>, i: int, f: Seq<char>) -> Result<
    (Seq<(Seq<char>, MetadataValueView)>, int),
    GenoErrorView,
> {
    if !(0 <= i < ts.len()) {
        Err(bounds_err(f))
    } else {
        match ts[i].kind {
            TokenKindView::Ident(kw) => {
                if kw != "meta"@ {
                    Err(parse_err(ts[i], f))
                } else if !(i + 1 < ts.len()) {
                    Err(bounds_err(f))
                } else if !(ts[i + 1].kind is LBrace) {
                    Err(parse_err(ts[i + 1], f))
                } else {
                    sp_meta_entries(ts, i + 2, Seq::empty(), f)
                }
            },
            _ => Err(parse_err(ts[i], f)),
        }
    }
}

/// One enum declaration after its `enum` keyword at `i`: the
/// identifier, an optional `: base_type` annotation (32-bit signed by
/// default), and the braced variant list, with an optional trailing
/// semicolon.
pub open spec fn sp_enum_decl(ts: Seq<TokenView>, i: int, f: Seq<char>) -> Result<
    (DeclarationView, int),
    GenoErrorView,
> {
    if !(0 <= i && i + 1 < ts.len()) {
        Err(bounds_err(f))
    } else {
        match ts[i + 1].kind {
            TokenKindView::Ident(ident) => if !(i + 2 < ts.len()) {
                Err(bounds_err(f))
            } else {
                let base: Result<(IntegerType, int), GenoErrorView> = match ts[i + 2].kind {
                    TokenKindView::Colon => {
                        if !(i + 3 < ts.len()) {
                            Err(bounds_err(f))
                        } else {
                            match ts[i + 3].kind {
                                TokenKindView::Ident(tname) => match int_type_of_name(tname) {
                                    Some(t) => Ok((t, i + 4)),
                                    None => Err(parse_err(ts[i + 3], f)),
                                },
                                _ => Err(parse_err(ts[i + 3], f)),
                            }
                        }
                    },
                    _ => Ok((IntegerType::I32, i + 2)),
                };
                match base {
                    Err(e) => Err(e),
                    Ok((base_type, j)) => {
                        if !(i < j < ts.len()) {
                            Err(bounds_err(f))
                        } else if !(ts[j].kind is LBrace) {
                            Err(parse_err(ts[j], f))
                        } else {
                            match sp_variant_list(ts, j + 1, f) {
                                Err(e) => Err(e),
                                Ok((variants, k)) => {
                                    if !(j < k < ts.len()) {
                                        Err(bounds_err(f))
                                    } else if !(ts[k].kind is RBrace) {
                                        Err(parse_err(ts[k], f))
                                    } else {
                                        let end = if k + 1 < ts.len() && ts[k + 1].kind is Semi {
                                            k + 2
                                        } else {
                                            k + 1
                                        };
                                        Ok(
                                            (
                                                DeclarationView::Enum { ident, base_type, variants },
                                                end,
                                            ),
                                        )
                                    }
                                },
                            }
                        }
                    },
                }
            },
            _ => Err(parse_err(ts[i + 1], f)),
        }
    }
}

/// One struct declaration after its `struct` keyword at `i`: the
/// identifier and the braced field list, with an optional trailing
/// semicolon.
pub open spec fn sp_struct_decl(ts: Seq<TokenView>, i: int, f: Seq<char>) -> Result<
    (DeclarationView, int),
    GenoErrorView,
> {
    if !(0 <= i && i + 1 < ts.len()) {
        Err(bounds_err(f))
    } else {
        match ts[i + 1].kind {
            TokenKindView::Ident(ident) => {
                if !(i + 2 < ts.len()) {
                    Err(bounds_err(f))
                } else if !(ts[i + 2].kind is LBrace) {
                    Err(parse_err(ts[i + 2], f))
                } else if !(i + 3 < ts.len()) {
                    Err(bounds_err(f))
                } else {
                    match sp_field_list(ts, i + 3, f) {
                        Err(e) => Err(e),
                        Ok((fields, k)) => {
                            if !(i + 2 < k < ts.len()) {
                                Err(bounds_err(f))
                            } else if !(ts[k].kind is RBrace) {
                                Err(parse_err(ts[k], f))
                            } else {
                                let end = if k + 1 < ts.len() && ts[k + 1].kind is Semi {
                                    k + 2
                                } else {
                                    k + 1
                                };
                                Ok((DeclarationView::Struct { ident, fields }, end))
                            }
                        },
                    }
                }
            },
            _ => Err(parse_err(ts[i + 1], f)),
        }
    }
}

/// The declarations from position `i` to the end of input.
pub open spec fn sp_decls(ts: Seq<TokenView>, i: int, f: Seq<char>) -> Result<
    (Seq<DeclarationView>, int),
    GenoErrorView,
>
    decreases ts.len() - i,
{
    if !(0 <= i < ts.len()) {
        Err(bounds_err(f))
    } else {
        match ts[i].kind {
            TokenKindView::End => Ok((Seq::empty(), i)),
            TokenKindView::Ident(kw) => {
                let head: Result<(DeclarationView, int), GenoErrorView> = if kw == "enum"@ {
                    sp_enum_decl(ts, i, f)
                } else if kw == "struct"@ {
                    sp_struct_decl(ts, i, f)
                } else {
                    Err(parse_err(ts[i], f))
                };
                match head {
                    Err(e) => Err(e),
                    Ok((d, j)) => {
                        if i < j <= ts.len() {
                            match sp_decls(ts, j, f) {
                                Err(e) => Err(e),
                                Ok((rest, k)) => Ok((seq![d] + rest, k)),
                            }
                        } else {
                            Err(bounds_err(f))
                        }
                    },
                }
            },
            _ => Err(parse_err(ts[i], f)),
        }
    }
}

/// The whole schema: the metadata block, then declarations to the end
/// of input.
pub open spec fn sp_schema(ts: Seq<TokenView>, f: Seq<char>) -> Result<SchemaView, GenoErrorView> {
    match sp_meta(ts, 0, f) {
        Err(e) => Err(e),
        Ok((metadata, j)) => match sp_decls(ts, j, f) {
            Err(e) => Err(e),
            Ok((declarations, _)) => Ok(SchemaView { metadata, declarations }),
        },
    }
}

/// True of a token stream that ends with exactly one end marker.
pub open spec fn wf_tokens(ts: Seq<TokenView>) -> bool {
    &&& ts.len() >= 1
    &&& ts[ts.len() - 1].kind is End
    &&& forall|k: int| 0 <= k < ts.len() - 1 ==> !((#[trigger] ts[k]).kind is End)
}

/// The tokenizer's output ends with exactly one end marker.
pub proof fn lemma_sp_tokens_wf(s: Seq<char>, i: int)
    requires
        crate::lexer::sp_tokens(s, i) is Ok,
    ensures
        wf_tokens(crate::lexer::sp_tokens(s, i)->Ok_0),
    decreases s.len() - i,
{
    let j = crate::lexer::sk(s, i);
    if i <= j <= s.len() && j < s.len() {
        match crate::lexer::tok_at(s, j) {
            Some((k, e)) => {
                if j < e <= s.len() {
                    lemma_sp_tokens_wf(s, e);
                    let rest = crate::lexer::sp_tokens(s, e)->Ok_0;
                    let whole = crate::lexer::sp_tokens(s, i)->Ok_0;
                    assert(whole.len() == 1 + rest.len());
                    assert(whole[whole.len() - 1] == rest[rest.len() - 1]);
                    assert forall|m: int| 0 <= m < whole.len() - 1 implies !((
                    #[trigger] whole[m]).kind is End) by {
                        if m > 0 {
                            assert(whole[m] == rest[m - 1]);
                        }
                    }
                }
            },
            None => {},
        }
    }
}

fn mk_parse_err(t: &Token, file: &str) -> (r: GenoError)
    ensures
        r@ == parse_err(t@, file@),
{
    let content: String = match &t.kind {
        TokenKind::Ident(x) => clone_string(x.as_str()),
        TokenKind::IntLit(x) => clone_string(x.as_str()),
        TokenKind::StrLit(x) => clone_string(x.as_str()),
        TokenKind::LBrace => String::from_str("{"),
        TokenKind::RBrace => String::from_str("}"),
        TokenKind::LBracket => String::from_str("["),
        TokenKind::RBracket => String::from_str("]"),
        TokenKind::Colon => String::from_str(":"),
        TokenKind::Semi => String::from_str(";"),
        TokenKind::Comma => String::from_str(","),
        TokenKind::Question => String::from_str("?"),
        TokenKind::Eq => String::from_str("="),
        TokenKind::End => {
            let e = String::new();
            proof {
                assert(e@ =~= Seq::<char>::empty());
            }
            e
        },
    };
    GenoError::Parse {
        content,
        file: clone_string(file),
        location: Location { line: t.line, column: t.col },
    }
}

fn mk_number_err(t: &Token, text: &str, file: &str, range: bool) -> (r: GenoError)
    ensures
        range ==> r@ == range_err(t@, text@, file@),
        !range ==> r@ == format_err(t@, text@, file@),
{
    if range {
        GenoError::NumberRange {
            content: clone_string(text),
            file: clone_string(file),
            location: Location { line: t.line, column: t.col },
        }
    } else {
        GenoError::NumberFormat {
            content: clone_string(text),
            file: clone_string(file),
            location: Location { line: t.line, column: t.col },
        }
    }
}

fn integer_type_of_name(t: &str) -> (r: Option<IntegerType>)
    ensures
        r == int_type_of_name(t@),
{
    if str_eq(t, "i8") {
        Some(IntegerType::I8)
    } else if str_eq(t, "i16") {
        Some(IntegerType::I16)
    } else if str_eq(t, "i32") {
        Some(IntegerType::I32)
    } else if str_eq(t, "i64") {
        Some(IntegerType::I64)
    } else if str_eq(t, "u8") {
        Some(IntegerType::U8)
    } else if str_eq(t, "u16") {
        Some(IntegerType::U16)
    } else if str_eq(t, "u32") {
        Some(IntegerType::U32)
    } else if str_eq(t, "u64") {
        Some(IntegerType::U64)
    } else {
        None
    }
}

fn builtin_type_of_name(t: &str) -> (r: Option<BuiltinType>)
    ensures
        r == builtin_of_name(t@),
{
    match integer_type_of_name(t) {
        Some(it) => Some(BuiltinType::Integer(it)),
        None => {
            if str_eq(t, "f32") {
                Some(BuiltinType::Float(FloatType::F32))
            } else if str_eq(t, "f64") {
                Some(BuiltinType::Float(FloatType::F64))
            } else if str_eq(t, "string") {
                Some(BuiltinType::String)
            } else if str_eq(t, "bool") {
                Some(BuiltinType::Bool)
            } else {
                None
            }
        },
    }
}

fn parse_nullable(toks: &Vec<Token>, i: usize) -> (r: (bool, usize))
    requires
        wf_tokens(tokens_view(toks@)),
        i < toks@.len(),
    ensures
        (r.0, r.1 as int) == sp_nullable(tokens_view(toks@), i as int),
        i <= r.1 < toks@.len(),
{
    let ghost ts = tokens_view(toks@);
    let n = toks.len();
    proof {
        assert(ts[i as int] == toks@[i as int]@);
        assert(ts[ts.len() - 1].kind is End);
    }
    match &toks[i].kind {
        TokenKind::Question => {
            proof {
                assert(!(ts[i as int].kind is End));
                assert(i as int != ts.len() - 1);
            }
            (true, i + 1)
        },
        _ => (false, i),
    }
}

/// Parses one field-type expression.
#[verifier::loop_isolation(false)]
#[verifier::rlimit(100)]
pub fn parse_field_type(toks: &Vec<Token>, i: usize, file: &str) -> (r: Result<
    (crate::ast::FieldType, usize),
    GenoError,
>)
    requires
        wf_tokens(tokens_view(toks@)),
        i < toks@.len(),
    ensures
        ({
            let ts = tokens_view(toks@);
            match r {
                Ok((ft, j)) => sp_field_type(ts, i as int, file@) == Ok::<
                    (FieldTypeView, int),
                    GenoErrorView,
                >((ft@, j as int)) && i < j < toks@.len(),
                Err(e) => sp_field_type(ts, i as int, file@) == Err::<
                    (FieldTypeView, int),
                    GenoErrorView,
                >(e@),
            }
        }),
    decreases toks@.len() - i,
{
    let ghost ts = tokens_view(toks@);
    let ghost f = file@;
    let n = toks.len();
    proof {
        assert(ts[i as int] == toks@[i as int]@);
        assert(ts.len() - 1 == toks@.len() - 1 && ts[ts.len() - 1].kind is End);
    }
    match &toks[i].kind {
        TokenKind::Ident(name) => {
            proof {
                assert(i as int != ts.len() - 1);
            }
            let (nullable, j) = parse_nullable(toks, i + 1);
            match builtin_type_of_name(name.as_str()) {
                Some(bt) => Ok((crate::ast::FieldType::Builtin(bt, nullable), j)),
                None => Ok(
                    (crate::ast::FieldType::UserDefined(clone_string(name.as_str()), nullable), j),
                ),
            }
        },
        TokenKind::LBracket => {
            proof {
                assert(i as int != ts.len() - 1);
            }
            match parse_field_type(toks, i + 1, file) {
                Err(e) => Err(e),
                Ok((elem, j)) => {
                    proof {
                        assert(ts[j as int] == toks@[j as int]@);
                    }
                    match &toks[j].kind {
                        TokenKind::RBracket => {
                            proof {
                                assert(j as int != ts.len() - 1);
                            }
                            let (nullable, k) = parse_nullable(toks, j + 1);
                            Ok(
                                (
                                    crate::ast::FieldType::Array(Box::new(elem), None, nullable),
                                    k,
                                ),
                            )
                        },
                        TokenKind::Semi => {
                            proof {
                                assert(j as int != ts.len() - 1);
                            }
                            proof {
                                assert(ts[j as int + 1] == toks@[j as int + 1]@);
                            }
                            match &toks[j + 1].kind {
                                TokenKind::IntLit(text) => {
                                    proof {
                                        assert((j + 1) as int != ts.len() - 1);
                                    }
                                    match parse_array_length(text.as_str()) {
                                        None => Err(
                                            mk_number_err(&toks[j + 1], text.as_str(), file, true),
                                        ),
                                        Some(l) => {
                                            proof {
                                                assert(ts[j as int + 2] == toks@[j as int + 2]@);
                                            }
                                            match &toks[j + 2].kind {
                                                TokenKind::RBracket => {
                                                    proof {
                                                        assert((j + 2) as int != ts.len() - 1);
                                                    }
                                                    let (nullable, k) = parse_nullable(
                                                        toks,
                                                        j + 3,
                                                    );
                                                    Ok(
                                                        (
                                                            crate::ast::FieldType::Array(
                                                                Box::new(elem),
                                                                Some(l),
                                                                nullable,
                                                            ),
                                                            k,
                                                        ),
                                                    )
                                                },
                                                _ => Err(mk_parse_err(&toks[j + 2], file)),
                                            }
                                        },
                                    }
                                },
                                _ => Err(mk_parse_err(&toks[j + 1], file)),
                            }
                        },
                        _ => Err(mk_parse_err(&toks[j], file)),
                    }
                },
            }
        },
        TokenKind::LBrace => {
            proof {
                assert(i as int != ts.len() - 1);
                assert(ts[i as int + 1] == toks@[i as int + 1]@);
            }
            match &toks[i + 1].kind {
                TokenKind::Ident(kname) => {
                    proof {
                        assert((i + 1) as int != ts.len() - 1);
                    }
                    match builtin_type_of_name(kname.as_str()) {
                        None => Err(mk_parse_err(&toks[i + 1], file)),
                        Some(key) => {
                            proof {
                                assert(ts[i as int + 2] == toks@[i as int + 2]@);
                            }
                            match &toks[i + 2].kind {
                                TokenKind::Colon => {
                                    proof {
                                        assert((i + 2) as int != ts.len() - 1);
                                    }
                                    match parse_field_type(toks, i + 3, file) {
                                        Err(e) => Err(e),
                                        Ok((value, j)) => {
                                            proof {
                                                assert(ts[j as int] == toks@[j as int]@);
                                            }
                                            match &toks[j].kind {
                                                TokenKind::RBrace => {
                                                    proof {
                                                        assert(j as int != ts.len() - 1);
                                                    }
                                                    let (nullable, k) = parse_nullable(
                                                        toks,
                                                        j + 1,
                                                    );
                                                    Ok(
                                                        (
                                                            crate::ast::FieldType::Mapping(
                                                                key,
                                                                Box::new(value),
                                                                nullable,
                                                            ),
                                                            k,
                                                        ),
                                                    )
                                                },
                                                _ => Err(mk_parse_err(&toks[j], file)),
                                            }
                                        },
                                    }
                                },
                                _ => Err(mk_parse_err(&toks[i + 2], file)),
                            }
                        },
                    }
                },
                _ => Err(mk_parse_err(&toks[i + 1], file)),
            }
        },
        _ => Err(mk_parse_err(&toks[i], file)),
    }
}

/// A parsed tail put back behind an already-parsed field prefix.
pub open spec fn with_prefix_fields(
    pre: Seq<(Seq<char>, FieldTypeView)>,
    r: Result<(Seq<(Seq<char>, FieldTypeView)>, int), GenoErrorView>,
) -> Result<(Seq<(Seq<char>, FieldTypeView)>, int), GenoErrorView> {
    match r {
        Ok((rest, k)) => Ok((pre + rest, k)),
        Err(e) => Err(e),
    }
}

/// A parsed tail put back behind an already-parsed variant prefix.
pub open spec fn with_prefix_variants(
    pre: Seq<(Seq<char>, Option<IntegerValue>)>,
    r: Result<(Seq<(Seq<char>, Option<IntegerValue>)>, int), GenoErrorView>,
) -> Result<(Seq<(Seq<char>, Option<IntegerValue>)>, int), GenoErrorView> {
    match r {
        Ok((rest, k)) => Ok((pre + rest, k)),
        Err(e) => Err(e),
    }
}

/// A parsed tail put back behind an already-parsed declaration prefix.
pub open spec fn with_prefix_decls(
    pre: Seq<DeclarationView>,
    r: Result<(Seq<DeclarationView>, int), GenoErrorView>,
) -> Result<(Seq<DeclarationView>, int), GenoErrorView> {
    match r {
        Ok((rest, k)) => Ok((pre + rest, k)),
        Err(e) => Err(e),
    }
}

proof fn lemma_fields_view_push(fs: Seq<(String, crate::ast::FieldType)>, x: (String, crate::ast::FieldType))
    ensures
        crate::ast::fields_view(fs.push(x)) == crate::ast::fields_view(fs).push((x.0@, x.1@)),
{
    assert forall|k: int| 0 <= k < fs.push(x).len() implies crate::ast::fields_view(fs.push(x))[k]
        == crate::ast::fields_view(fs).push((x.0@, x.1@))[k] by {
        if k < fs.len() {
            assert(fs.push(x)[k] == fs[k]);
            assert(crate::ast::fields_view(fs)[k] == (fs[k].0@, fs[k].1@));
        } else {
            assert(fs.push(x)[k] == x);
        }
    }
    assert(crate::ast::fields_view(fs.push(x)) =~= crate::ast::fields_view(fs).push(
        (x.0@, x.1@),
    ));
}

proof fn lemma_variants_view_push(
    vs: Seq<(String, Option<IntegerValue>)>,
    x: (String, Option<IntegerValue>),
)
    ensures
        crate::ast::variants_view(vs.push(x)) == crate::ast::variants_view(vs).push((x.0@, x.1)),
{
    assert forall|k: int| 0 <= k < vs.push(x).len() implies crate::ast::variants_view(vs.push(x))[k]
        == crate::ast::variants_view(vs).push((x.0@, x.1))[k] by {
        if k < vs.len() {
            assert(vs.push(x)[k] == vs[k]);
            assert(crate::ast::variants_view(vs)[k] == (vs[k].0@, vs[k].1));
        } else {
            assert(vs.push(x)[k] == x);
        }
    }
    assert(crate::ast::variants_view(vs.push(x)) =~= crate::ast::variants_view(vs).push(
        (x.0@, x.1),
    ));
}

/// Parses a struct's field list up to its closing brace.
#[verifier::loop_isolation(false)]
#[verifier::rlimit(100)]
pub fn parse_field_list(toks: &Vec<Token>, i: usize, file: &str) -> (r: Result<
    (Vec<(String, crate::ast::FieldType)>, usize),
    GenoError,
>)
    requires
        wf_tokens(tokens_view(toks@)),
        i < toks@.len(),
    ensures
        ({
            let ts = tokens_view(toks@);
            match r {
                Ok((fs, j)) => sp_field_list(ts, i as int, file@) == Ok::<
                    (Seq<(Seq<char>, FieldTypeView)>, int),
                    GenoErrorView,
                >((crate::ast::fields_view(fs@), j as int)) && i <= j < toks@.len(),
                Err(e) => sp_field_list(ts, i as int, file@) == Err::<
                    (Seq<(Seq<char>, FieldTypeView)>, int),
                    GenoErrorView,
                >(e@),
            }
        }),
{
    let ghost ts = tokens_view(toks@);
    let ghost f = file@;
    let n = toks.len();
    let mut acc: Vec<(String, crate::ast::FieldType)> = Vec::new();
    let mut cur: usize = i;
    proof {
        assert(crate::ast::fields_view(acc@) =~= Seq::<(Seq<char>, FieldTypeView)>::empty());
    }
    loop
        invariant
            i <= cur < n,
            n == ts.len(),
            sp_field_list(ts, i as int, f) == with_prefix_fields(
                crate::ast::fields_view(acc@),
                sp_field_list(ts, cur as int, f),
            ),
        decreases n - cur,
    {
        proof {
            assert(ts[cur as int] == toks@[cur as int]@);
        }
        match &toks[cur].kind {
            TokenKind::RBrace => {
                proof {
                    assert(crate::ast::fields_view(acc@) + Seq::<
                        (Seq<char>, FieldTypeView),
                    >::empty() =~= crate::ast::fields_view(acc@));
                }
                return Ok((acc, cur));
            },
            TokenKind::Ident(name) => {
                proof {
                    assert(cur as int != ts.len() - 1);
                    assert(ts[cur as int + 1] == toks@[cur as int + 1]@);
                }
                match &toks[cur + 1].kind {
                    TokenKind::Colon => {
                        proof {
                            assert((cur + 1) as int != ts.len() - 1);
                        }
                        match parse_field_type(toks, cur + 2, file) {
                            Err(e) => {
                                return Err(e);
                            },
                            Ok((ft, j)) => {
                                proof {
                                    assert(ts[j as int] == toks@[j as int]@);
                                }
                                let item = (clone_string(name.as_str()), ft);
                                match &toks[j].kind {
                                    TokenKind::RBrace => {
                                        let ghost pre = acc@;
                                        acc.push(item);
                                        proof {
                                            lemma_fields_view_push(
                                                pre,
                                                acc@[pre.len() as int],
                                            );
                                            assert(crate::ast::fields_view(pre) + seq![
                                                (name@, ft@),
                                            ] =~= crate::ast::fields_view(acc@));
                                        }
                                        return Ok((acc, j));
                                    },
                                    TokenKind::Comma => {
                                        proof {
                                            assert(j as int != ts.len() - 1);
                                        }
                                        let ghost pre = acc@;
                                        acc.push(item);
                                        proof {
                                            lemma_fields_view_push(
                                                pre,
                                                acc@[pre.len() as int],
                                            );
                                            let rrest = sp_field_list(ts, j as int + 1, f);
                                            match rrest {
                                                Ok((rest, k2)) => {
                                                    assert(crate::ast::fields_view(pre) + (seq![
                                                        (name@, ft@),
                                                    ] + rest) =~= crate::ast::fields_view(acc@)
                                                        + rest);
                                                },
                                                Err(_) => {},
                                            }
                                        }
                                        cur = j + 1;
                                    },
                                    _ => {
                                        return Err(mk_parse_err(&toks[j], file));
                                    },
                                }
                            },
                        }
                    },
                    _ => {
                        return Err(mk_parse_err(&toks[cur + 1], file));
                    },
                }
            },
            _ => {
                return Err(mk_parse_err(&toks[cur], file));
            },
        }
    }
}

/// Parses an enum's variant list up to its closing brace.
#[verifier::loop_isolation(false)]
#[verifier::rlimit(100)]
pub fn parse_variant_list(toks: &Vec<Token>, i: usize, file: &str) -> (r: Result<
    (Vec<(String, Option<IntegerValue>)>, usize),
    GenoError,
>)
    requires
        wf_tokens(tokens_view(toks@)),
        i < toks@.len(),
    ensures
        ({
            let ts = tokens_view(toks@);
            match r {
                Ok((vs, j)) => sp_variant_list(ts, i as int, file@) == Ok::<
                    (Seq<(Seq<char>, Option<IntegerValue>)>, int),
                    GenoErrorView,
                >((crate::ast::variants_view(vs@), j as int)) && i <= j < toks@.len(),
                Err(e) => sp_variant_list(ts, i as int, file@) == Err::<
                    (Seq<(Seq<char>, Option<IntegerValue>)>, int),
                    GenoErrorView,
                >(e@),
            }
        }),
{
    let ghost ts = tokens_view(toks@);
    let ghost f = file@;
    let n = toks.len();
    let mut acc: Vec<(String, Option<IntegerValue>)> = Vec::new();
    let mut cur: usize = i;
    proof {
        assert(crate::ast::variants_view(acc@) =~= Seq::<
            (Seq<char>, Option<IntegerValue>),
        >::empty());
    }
    loop
        invariant
            i <= cur < n,
            n == ts.len(),
            sp_variant_list(ts, i as int, f) == with_prefix_variants(
                crate::ast::variants_view(acc@),
                sp_variant_list(ts, cur as int, f),
            ),
        decreases n - cur,
    {
        proof {
            assert(ts[cur as int] == toks@[cur as int]@);
        }
        match &toks[cur].kind {
            TokenKind::RBrace => {
                proof {
                    assert(crate::ast::variants_view(acc@) + Seq::<
                        (Seq<char>, Option<IntegerValue>),
                    >::empty() =~= crate::ast::variants_view(acc@));
                }
                return Ok((acc, cur));
            },
            TokenKind::Ident(name) => {
                proof {
                    assert(cur as int != ts.len() - 1);
                    assert(ts[cur as int + 1] == toks@[cur as int + 1]@);
                }
                let value: Option<IntegerValue>;
                let j: usize;
                match &toks[cur + 1].kind {
                    TokenKind::Eq => {
                        proof {
                            assert((cur + 1) as int != ts.len() - 1);
                            assert(ts[cur as int + 2] == toks@[cur as int + 2]@);
                        }
                        match &toks[cur + 2].kind {
                            TokenKind::IntLit(text) => {
                                match parse_integer_literal(text.as_str()) {
                                    Ok(v) => {
                                        proof {
                                            assert((cur + 2) as int != ts.len() - 1);
                                        }
                                        value = Some(v);
                                        j = cur + 3;
                                    },
                                    Err(range) => {
                                        return Err(
                                            mk_number_err(
                                                &toks[cur + 2],
                                                text.as_str(),
                                                file,
                                                range,
                                            ),
                                        );
                                    },
                                }
                            },
                            _ => {
                                return Err(mk_parse_err(&toks[cur + 2], file));
                            },
                        }
                    },
                    _ => {
                        value = None;
                        j = cur + 1;
                    },
                }
                proof {
                    assert(ts[j as int] == toks@[j as int]@);
                }
                let item = (clone_string(name.as_str()), value);
                match &toks[j].kind {
                    TokenKind::RBrace => {
                        let ghost pre = acc@;
                        acc.push(item);
                        proof {
                            lemma_variants_view_push(pre, acc@[pre.len() as int]);
                            assert(crate::ast::variants_view(pre) + seq![(name@, value)]
                                =~= crate::ast::variants_view(acc@));
                        }
                        return Ok((acc, j));
                    },
                    TokenKind::Comma => {
                        proof {
                            assert(j as int != ts.len() - 1);
                        }
                        let ghost pre = acc@;
                        acc.push(item);
                        proof {
                            lemma_variants_view_push(pre, acc@[pre.len() as int]);
                            let rrest = sp_variant_list(ts, j as int + 1, f);
                            match rrest {
                                Ok((rest, k2)) => {
                                    assert(crate::ast::variants_view(pre) + (seq![(name@, value)]
                                        + rest) =~= crate::ast::variants_view(acc@) + rest);
                                },
                                Err(_) => {},
                            }
                        }
                        cur = j + 1;
                    },
                    _ => {
                        return Err(mk_parse_err(&toks[j], file));
                    },
                }
            },
            _ => {
                return Err(mk_parse_err(&toks[cur], file));
            },
        }
    }
}

proof fn lemma_meta_upsert_found(
    ms: Seq<(Seq<char>, MetadataValueView)>,
    k: Seq<char>,
    v: MetadataValueView,
    idx: int,
)
    requires
        0 <= idx < ms.len(),
        ms[idx].0 == k,
        forall|j: int| 0 <= j < idx ==> (#[trigger] ms[j]).0 != k,
    ensures
        meta_upsert(ms, k, v) == ms.update(idx, (k, v)),
    decreases ms.len(),
{
    if idx == 0 {
        assert(seq![(k, v)] + ms.skip(1) =~= ms.update(0, (k, v)));
    } else {
        assert forall|j: int| 0 <= j < idx - 1 implies (#[trigger] ms.skip(1)[j]).0 != k by {
            assert(ms.skip(1)[j] == ms[j + 1]);
        }
        lemma_meta_upsert_found(ms.skip(1), k, v, idx - 1);
        assert(seq![ms[0]] + ms.skip(1).update(idx - 1, (k, v)) =~= ms.update(idx, (k, v)));
    }
}

proof fn lemma_meta_upsert_missing(
    ms: Seq<(Seq<char>, MetadataValueView)>,
    k: Seq<char>,
    v: MetadataValueView,
)
    requires
        forall|j: int| 0 <= j < ms.len() ==> (#[trigger] ms[j]).0 != k,
    ensures
        meta_upsert(ms, k, v) == ms.push((k, v)),
    decreases ms.len(),
{
    if ms.len() == 0 {
        assert(seq![(k, v)] =~= ms.push((k, v)));
    } else {
        assert forall|j: int| 0 <= j < ms.skip(1).len() implies (#[trigger] ms.skip(1)[j]).0
            != k by {
            assert(ms.skip(1)[j] == ms[j + 1]);
        }
        lemma_meta_upsert_missing(ms.skip(1), k, v);
        assert(seq![ms[0]] + ms.skip(1).push((k, v)) =~= ms.push((k, v)));
    }
}

/// Inserts one metadata entry, replacing the value of an existing key
/// in place so that keys stay unique and the last value wins.
#[verifier::loop_isolation(false)]
fn meta_insert(ms: &mut Vec<(String, crate::ast::MetadataValue)>, key: String, value: crate::ast::MetadataValue)
    ensures
        crate::ast::meta_view(final(ms)@) == meta_upsert(
            crate::ast::meta_view(old(ms)@),
            key@,
            value@,
        ),
{
    let ghost mv = crate::ast::meta_view(old(ms)@);
    let n = ms.len();
    let mut idx: usize = 0;
    while idx < n
        invariant
            n == ms@.len(),
            ms@ == old(ms)@,
            0 <= idx <= n,
            forall|j: int| 0 <= j < idx ==> (#[trigger] mv[j]).0 != key@,
        decreases n - idx,
    {
        proof {
            assert(mv[idx as int] == (ms@[idx as int].0@, ms@[idx as int].1@));
        }
        if str_eq(ms[idx].0.as_str(), key.as_str()) {
            let ghost pre = ms@;
            ms.remove(idx);
            ms.insert(idx, (key, value));
            proof {
                lemma_meta_upsert_found(mv, key@, value@, idx as int);
                assert(ms@ =~= pre.update(idx as int, (key, value)));
                assert forall|j: int| 0 <= j < ms@.len() implies crate::ast::meta_view(ms@)[j]
                    == mv.update(idx as int, (key@, value@))[j] by {
                    assert(crate::ast::meta_view(ms@)[j] == (ms@[j].0@, ms@[j].1@));
                    if j != idx as int {
                        assert(ms@[j] == pre[j]);
                        assert(mv[j] == (pre[j].0@, pre[j].1@));
                    }
                }
                assert(crate::ast::meta_view(ms@) =~= mv.update(idx as int, (key@, value@)));
            }
            return ;
        }
        idx = idx + 1;
    }
    let ghost pre = ms@;
    ms.push((key, value));
    proof {
        lemma_meta_upsert_missing(mv, key@, value@);
        assert forall|j: int| 0 <= j < ms@.len() implies crate::ast::meta_view(ms@)[j] == mv.push(
            (key@, value@),
        )[j] by {
            assert(crate::ast::meta_view(ms@)[j] == (ms@[j].0@, ms@[j].1@));
            if j < pre.len() {
                assert(ms@[j] == pre[j]);
                assert(mv[j] == (pre[j].0@, pre[j].1@));
            }
        }
        assert(crate::ast::meta_view(ms@) =~= mv.push((key@, value@)));
    }
}

/// Parses the mandatory leading metadata block, returning the position
/// just past its closing brace.
#[verifier::loop_isolation(false)]
#[verifier::rlimit(100)]
pub fn parse_meta(toks: &Vec<Token>, file: &str) -> (r: Result<
    (Vec<(String, crate::ast::MetadataValue)>, usize),
    GenoError,
>)
    requires
        wf_tokens(tokens_view(toks@)),
    ensures
        ({
            let ts = tokens_view(toks@);
            match r {
                Ok((ms, j)) => sp_meta(ts, 0, file@) == Ok::<
                    (Seq<(Seq<char>, MetadataValueView)>, int),
                    GenoErrorView,
                >((crate::ast::meta_view(ms@), j as int)) && 0 < j < toks@.len(),
                Err(e) => sp_meta(ts, 0, file@) == Err::<
                    (Seq<(Seq<char>, MetadataValueView)>, int),
                    GenoErrorView,
                >(e@),
            }
        }),
{
    let ghost ts = tokens_view(toks@);
    let ghost f = file@;
    let n = toks.len();
    proof {
        assert(ts[0] == toks@[0]@);
        assert(ts[ts.len() - 1].kind is End);
    }
    match &toks[0].kind {
        TokenKind::Ident(kw) => {
            if !str_eq(kw.as_str(), "meta") {
                return Err(mk_parse_err(&toks[0], file));
            }
            proof {
                assert(0int != ts.len() - 1);
                assert(ts[1] == toks@[1]@);
            }
            match &toks[1].kind {
                TokenKind::LBrace => {
                    proof {
                        assert(1int != ts.len() - 1);
                    }
                    let mut acc: Vec<(String, crate::ast::MetadataValue)> = Vec::new();
                    let mut cur: usize = 2;
                    proof {
                        assert(crate::ast::meta_view(acc@) =~= Seq::<
                            (Seq<char>, MetadataValueView),
                        >::empty());
                    }
                    loop
                        invariant
                            2 <= cur < n,
                            n == ts.len(),
                            sp_meta(ts, 0, f) == sp_meta_entries(
                                ts,
                                cur as int,
                                crate::ast::meta_view(acc@),
                                f,
                            ),
                        decreases n - cur,
                    {
                        proof {
                            assert(ts[cur as int] == toks@[cur as int]@);
                        }
                        match &toks[cur].kind {
                            TokenKind::RBrace => {
                                proof {
                                    assert(cur as int != ts.len() - 1);
                                }
                                return Ok((acc, cur + 1));
                            },
                            TokenKind::Ident(name) => {
                                proof {
                                    assert(cur as int != ts.len() - 1);
                                    assert(ts[cur as int + 1] == toks@[cur as int + 1]@);
                                }
                                match &toks[cur + 1].kind {
                                    TokenKind::Eq => {
                                        proof {
                                            assert((cur + 1) as int != ts.len() - 1);
                                            assert(ts[cur as int + 2] == toks@[cur as int + 2]@);
                                        }
                                        let value: crate::ast::MetadataValue;
                                        match &toks[cur + 2].kind {
                                            TokenKind::StrLit(text) => {
                                                value = crate::ast::MetadataValue::String(
                                                    clone_string(text.as_str()),
                                                );
                                            },
                                            TokenKind::IntLit(text) => {
                                                match parse_integer_literal(text.as_str()) {
                                                    Ok(v) => {
                                                        value = crate::ast::MetadataValue::Integer(
                                                            v,
                                                        );
                                                    },
                                                    Err(range) => {
                                                        return Err(
                                                            mk_number_err(
                                                                &toks[cur + 2],
                                                                text.as_str(),
                                                                file,
                                                                range,
                                                            ),
                                                        );
                                                    },
                                                }
                                            },
                                            _ => {
                                                return Err(mk_parse_err(&toks[cur + 2], file));
                                            },
                                        }
                                        proof {
                                            assert((cur + 2) as int != ts.len() - 1);
                                            assert(ts[cur as int + 3] == toks@[cur as int + 3]@);
                                        }
                                        let key = clone_string(name.as_str());
                                        match &toks[cur + 3].kind {
                                            TokenKind::RBrace => {
                                                proof {
                                                    assert((cur + 3) as int != ts.len() - 1);
                                                }
                                                meta_insert(&mut acc, key, value);
                                                return Ok((acc, cur + 4));
                                            },
                                            TokenKind::Comma => {
                                                proof {
                                                    assert((cur + 3) as int != ts.len() - 1);
                                                }
                                                meta_insert(&mut acc, key, value);
                                                cur = cur + 4;
                                            },
                                            _ => {
                                                return Err(mk_parse_err(&toks[cur + 3], file));
                                            },
                                        }
                                    },
                                    _ => {
                                        return Err(mk_parse_err(&toks[cur + 1], file));
                                    },
                                }
                            },
                            _ => {
                                return Err(mk_parse_err(&toks[cur], file));
                            },
                        }
                    }
                },
                _ => Err(mk_parse_err(&toks[1], file)),
            }
        },
        _ => Err(mk_parse_err(&toks[0], file)),
    }
}

/// Parses one enum declaration whose `enum` keyword stands at `i`.
#[verifier::rlimit(100)]
pub fn parse_enum_decl(toks: &Vec<Token>, i: usize, file: &str) -> (r: Result<
    (crate::ast::Declaration, usize),
    GenoError,
>)
    requires
        wf_tokens(tokens_view(toks@)),
        i < toks@.len(),
        !(tokens_view(toks@)[i as int].kind is End),
    ensures
        ({
            let ts = tokens_view(toks@);
            match r {
                Ok((d, j)) => sp_enum_decl(ts, i as int, file@) == Ok::<
                    (DeclarationView, int),
                    GenoErrorView,
                >((d@, j as int)) && i < j < toks@.len(),
                Err(e) => sp_enum_decl(ts, i as int, file@) == Err::<
                    (DeclarationView, int),
                    GenoErrorView,
                >(e@),
            }
        }),
{
    let ghost ts = tokens_view(toks@);
    let ghost f = file@;
    let n = toks.len();
    proof {
        assert(ts[i as int] == toks@[i as int]@);
        assert(i as int != ts.len() - 1);
        assert(ts[i as int + 1] == toks@[i as int + 1]@);
        assert(ts[ts.len() - 1].kind is End);
    }
    match &toks[i + 1].kind {
        TokenKind::Ident(ident) => {
            proof {
                assert((i + 1) as int != ts.len() - 1);
                assert(ts[i as int + 2] == toks@[i as int + 2]@);
            }
            let base_type: IntegerType;
            let j: usize;
            match &toks[i + 2].kind {
                TokenKind::Colon => {
                    proof {
                        assert((i + 2) as int != ts.len() - 1);
                        assert(ts[i as int + 3] == toks@[i as int + 3]@);
                    }
                    match &toks[i + 3].kind {
                        TokenKind::Ident(tname) => {
                            match integer_type_of_name(tname.as_str()) {
                                Some(t) => {
                                    proof {
                                        assert((i + 3) as int != ts.len() - 1);
                                    }
                                    base_type = t;
                                    j = i + 4;
                                },
                                None => {
                                    return Err(mk_parse_err(&toks[i + 3], file));
                                },
                            }
                        },
                        _ => {
                            return Err(mk_parse_err(&toks[i + 3], file));
                        },
                    }
                },
                _ => {
                    base_type = IntegerType::I32;
                    j = i + 2;
                },
            }
            proof {
                assert(ts[j as int] == toks@[j as int]@);
            }
            match &toks[j].kind {
                TokenKind::LBrace => {
                    proof {
                        assert(j as int != ts.len() - 1);
                    }
                    match parse_variant_list(toks, j + 1, file) {
                        Err(e) => Err(e),
                        Ok((variants, k)) => {
                            proof {
                                assert(ts[k as int] == toks@[k as int]@);
                            }
                            match &toks[k].kind {
                                TokenKind::RBrace => {
                                    proof {
                                        assert(k as int != ts.len() - 1);
                                        assert(ts[k as int + 1] == toks@[k as int + 1]@);
                                    }
                                    let end: usize = match &toks[k + 1].kind {
                                        TokenKind::Semi => {
                                            proof {
                                                assert((k + 1) as int != ts.len() - 1);
                                            }
                                            k + 2
                                        },
                                        _ => k + 1,
                                    };
                                    let d = crate::ast::Declaration::Enum {
                                        ident: clone_string(ident.as_str()),
                                        base_type,
                                        variants,
                                    };
                                    proof {
                                        assert(d@ == (DeclarationView::Enum {
                                            ident: ident@,
                                            base_type,
                                            variants: crate::ast::variants_view(
                                                d->Enum_variants@,
                                            ),
                                        }));
                                    }
                                    Ok((d, end))
                                },
                                _ => Err(mk_parse_err(&toks[k], file)),
                            }
                        },
                    }
                },
                _ => Err(mk_parse_err(&toks[j], file)),
            }
        },
        _ => Err(mk_parse_err(&toks[i + 1], file)),
    }
}

/// Parses one struct declaration whose `struct` keyword stands at `i`.
#[verifier::rlimit(100)]
pub fn parse_struct_decl(toks: &Vec<Token>, i: usize, file: &str) -> (r: Result<
    (crate::ast::Declaration, usize),
    GenoError,
>)
    requires
        wf_tokens(tokens_view(toks@)),
        i < toks@.len(),
        !(tokens_view(toks@)[i as int].kind is End),
    ensures
        ({
            let ts = tokens_view(toks@);
            match r {
                Ok((d, j)) => sp_struct_decl(ts, i as int, file@) == Ok::<
                    (DeclarationView, int),
                    GenoErrorView,
                >((d@, j as int)) && i < j < toks@.len(),
                Err(e) => sp_struct_decl(ts, i as int, file@) == Err::<
                    (DeclarationView, int),
                    GenoErrorView,
                >(e@),
            }
        }),
{
    let ghost ts = tokens_view(toks@);
    let ghost f = file@;
    let n = toks.len();
    proof {
        assert(ts[i as int] == toks@[i as int]@);
        assert(i as int != ts.len() - 1);
        assert(ts[i as int + 1] == toks@[i as int + 1]@);
        assert(ts[ts.len() - 1].kind is End);
    }
    match &toks[i + 1].kind {
        TokenKind::Ident(ident) => {
            proof {
                assert((i + 1) as int != ts.len() - 1);
                assert(ts[i as int + 2] == toks@[i as int + 2]@);
            }
            match &toks[i + 2].kind {
                TokenKind::LBrace => {
                    proof {
                        assert((i + 2) as int != ts.len() - 1);
                    }
                    match parse_field_list(toks, i + 3, file) {
                        Err(e) => Err(e),
                        Ok((fields, k)) => {
                            proof {
                                assert(ts[k as int] == toks@[k as int]@);
                            }
                            match &toks[k].kind {
                                TokenKind::RBrace => {
                                    proof {
                                        assert(k as int != ts.len() - 1);
                                        assert(ts[k as int + 1] == toks@[k as int + 1]@);
                                    }
                                    let end: usize = match &toks[k + 1].kind {
                                        TokenKind::Semi => {
                                            proof {
                                                assert((k + 1) as int != ts.len() - 1);
                                            }
                                            k + 2
                                        },
                                        _ => k + 1,
                                    };
                                    let d = crate::ast::Declaration::Struct {
                                        ident: clone_string(ident.as_str()),
                                        fields,
                                    };
                                    Ok((d, end))
                                },
                                _ => Err(mk_parse_err(&toks[k], file)),
                            }
                        },
                    }
                },
                _ => Err(mk_parse_err(&toks[i + 2], file)),
            }
        },
        _ => Err(mk_parse_err(&toks[i + 1], file)),
    }
}

proof fn lemma_decls_view_push(ds: Seq<crate::ast::Declaration>, x: crate::ast::Declaration)
    ensures
        crate::ast::decls_view(ds.push(x)) == crate::ast::decls_view(ds).push(x@),
{
    assert forall|k: int| 0 <= k < ds.push(x).len() implies crate::ast::decls_view(ds.push(x))[k]
        == crate::ast::decls_view(ds).push(x@)[k] by {
        if k < ds.len() {
            assert(ds.push(x)[k] == ds[k]);
            assert(crate::ast::decls_view(ds)[k] == ds[k]@);
        } else {
            assert(ds.push(x)[k] == x);
        }
    }
    assert(crate::ast::decls_view(ds.push(x)) =~= crate::ast::decls_view(ds).push(x@));
}

/// Parses the declarations from position `i` to the end of input.
#[verifier::loop_isolation(false)]
#[verifier::rlimit(100)]
pub fn parse_decls(toks: &Vec<Token>, i: usize, file: &str) -> (r: Result<
    Vec<crate::ast::Declaration>,
    GenoError,
>)
    requires
        wf_tokens(tokens_view(toks@)),
        i < toks@.len(),
    ensures
        ({
            let ts = tokens_view(toks@);
            match r {
                Ok(ds) => sp_decls(ts, i as int, file@) matches Ok((dv, _))
                    && crate::ast::decls_view(ds@) == dv,
                Err(e) => sp_decls(ts, i as int, file@) matches Err(ev) && ev == e@,
            }
        }),
{
    let ghost ts = tokens_view(toks@);
    let ghost f = file@;
    let n = toks.len();
    let mut acc: Vec<crate::ast::Declaration> = Vec::new();
    let mut cur: usize = i;
    proof {
        assert(crate::ast::decls_view(acc@) =~= Seq::<DeclarationView>::empty());
    }
    loop
        invariant
            i <= cur < n,
            n == ts.len(),
            sp_decls(ts, i as int, f) == with_prefix_decls(
                crate::ast::decls_view(acc@),
                sp_decls(ts, cur as int, f),
            ),
        decreases n - cur,
    {
        proof {
            assert(ts[cur as int] == toks@[cur as int]@);
        }
        match &toks[cur].kind {
            TokenKind::End => {
                proof {
                    assert(crate::ast::decls_view(acc@) + Seq::<DeclarationView>::empty()
                        =~= crate::ast::decls_view(acc@));
                }
                return Ok(acc);
            },
            TokenKind::Ident(kw) => {
                let head: Result<(crate::ast::Declaration, usize), GenoError> = if str_eq(
                    kw.as_str(),
                    "enum",
                ) {
                    parse_enum_decl(toks, cur, file)
                } else if str_eq(kw.as_str(), "struct") {
                    parse_struct_decl(toks, cur, file)
                } else {
                    return Err(mk_parse_err(&toks[cur], file));
                };
                match head {
                    Err(e) => {
                        return Err(e);
                    },
                    Ok((d, j)) => {
                        let ghost pre = acc@;
                        acc.push(d);
                        proof {
                            lemma_decls_view_push(pre, acc@[pre.len() as int]);
                            let rrest = sp_decls(ts, j as int, f);
                            match rrest {
                                Ok((rest, k2)) => {
                                    assert(crate::ast::decls_view(pre) + (seq![
                                        acc@[pre.len() as int]@,
                                    ] + rest) =~= crate::ast::decls_view(acc@) + rest);
                                },
                                Err(_) => {},
                            }
                        }
                        cur = j;
                    },
                }
            },
            _ => {
                return Err(mk_parse_err(&toks[cur], file));
            },
        }
    }
}

/// Parses a whole token stream into a schema: the metadata block, then
/// declarations to the end of input.
pub fn parse_tokens(toks: &Vec<Token>, file: &str) -> (r: Result<crate::ast::Schema, GenoError>)
    requires
        wf_tokens(tokens_view(toks@)),
    ensures
        ({
            let ts = tokens_view(toks@);
            match r {
                Ok(schema) => sp_schema(ts, file@) == Ok::<SchemaView, GenoErrorView>(schema@),
                Err(e) => sp_schema(ts, file@) == Err::<SchemaView, GenoErrorView>(e@),
            }
        }),
{
    let ghost ts = tokens_view(toks@);
    match parse_meta(toks, file) {
        Err(e) => Err(e),
        Ok((metadata, j)) => match parse_decls(toks, j, file) {
            Err(e) => Err(e),
            Ok(declarations) => {
                let schema = crate::ast::Schema { metadata, declarations };
                proof {
                    assert(schema@.metadata =~= crate::ast::meta_view(schema.metadata@));
                    assert(schema@.declarations =~= crate::ast::decls_view(
                        schema.declarations@,
                    ));
                }
                Ok(schema)
            },
        },
    }
}

/// True when no two metadata entries share a key.
pub open spec fn meta_keys_unique(ms: Seq<(Seq<char>, MetadataValueView)>) -> bool {
    forall|i: int, j: int| 0 <= i < j < ms.len() ==> ms[i].0 != ms[j].0
}

proof fn lemma_meta_upsert_keys(
    ms: Seq<(Seq<char>, MetadataValueView)>,
    k: Seq<char>,
    v: MetadataValueView,
)
    requires
        meta_keys_unique(ms),
    ensures
        meta_keys_unique(meta_upsert(ms, k, v)),
        forall|m: int|
            0 <= m < meta_upsert(ms, k, v).len() ==> (#[trigger] meta_upsert(ms, k, v)[m].0 == k
                || exists|j: int| 0 <= j < ms.len() && (#[trigger] ms[j].0) == meta_upsert(
                ms,
                k,
                v,
            )[m].0),
    decreases ms.len(),
{
    if ms.len() == 0 {
    } else if ms[0].0 == k {
        let res = seq![(k, v)] + ms.skip(1);
        assert forall|i: int, j: int| 0 <= i < j < res.len() implies res[i].0 != res[j].0 by {
            if i == 0 {
                assert(res[j] == ms[j]);
                assert(ms[0].0 != ms[j].0);
            } else {
                assert(res[i] == ms[i]);
                assert(res[j] == ms[j]);
            }
        }
        assert forall|m: int| 0 <= m < res.len() implies (#[trigger] res[m].0 == k || exists|j: int|
            0 <= j < ms.len() && (#[trigger] ms[j].0) == res[m].0) by {
            if m > 0 {
                assert(res[m] == ms[m]);
                assert(ms[m].0 == res[m].0);
            }
        }
    } else {
        assert(meta_keys_unique(ms.skip(1))) by {
            assert forall|i: int, j: int| 0 <= i < j < ms.skip(1).len() implies ms.skip(1)[i].0
                != ms.skip(1)[j].0 by {
                assert(ms.skip(1)[i] == ms[i + 1]);
                assert(ms.skip(1)[j] == ms[j + 1]);
            }
        }
        lemma_meta_upsert_keys(ms.skip(1), k, v);
        let sub = meta_upsert(ms.skip(1), k, v);
        let res = seq![ms[0]] + sub;
        assert forall|i: int, j: int| 0 <= i < j < res.len() implies res[i].0 != res[j].0 by {
            if i == 0 {
                assert(res[j] == sub[j - 1]);
                if sub[j - 1].0 == k {
                } else {
                    let w = choose|w: int|
                        0 <= w < ms.skip(1).len() && (#[trigger] ms.skip(1)[w].0) == sub[j - 1].0;
                    assert(ms.skip(1)[w] == ms[w + 1]);
                    assert(ms[0].0 != ms[w + 1].0);
                }
            } else {
                assert(res[i] == sub[i - 1]);
                assert(res[j] == sub[j - 1]);
            }
        }
        assert forall|m: int| 0 <= m < res.len() implies (#[trigger] res[m].0 == k || exists|j: int|
            0 <= j < ms.len() && (#[trigger] ms[j].0) == res[m].0) by {
            if m == 0 {
                assert(ms[0].0 == res[0].0);
            } else {
                assert(res[m] == sub[m - 1]);
                if sub[m - 1].0 != k {
                    let w = choose|w: int|
                        0 <= w < ms.skip(1).len() && (#[trigger] ms.skip(1)[w].0) == sub[m - 1].0;
                    assert(ms[w + 1].0 == res[m].0);
                }
            }
        }
    }
}

proof fn lemma_sp_meta_entries_unique(
    ts: Seq<TokenView>,
    i: int,
    acc: Seq<(Seq<char>, MetadataValueView)>,
    f: Seq<char>,
)
    requires
        meta_keys_unique(acc),
    ensures
        sp_meta_entries(ts, i, acc, f) matches Ok((ms, _)) ==> meta_keys_unique(ms),
    decreases ts.len() - i,
{
    if 0 <= i < ts.len() {
        match ts[i].kind {
            TokenKindView::Ident(name) => {
                if i + 1 < ts.len() && ts[i + 1].kind is Eq && i + 2 < ts.len() {
                    let value: Result<MetadataValueView, GenoErrorView> = match ts[i + 2].kind {
                        TokenKindView::StrLit(text) => Ok(MetadataValueView::String(text)),
                        TokenKindView::IntLit(text) => match lit_value(text) {
                            Ok(v) => Ok(MetadataValueView::Integer(v)),
                            Err(true) => Err(range_err(ts[i + 2], text, f)),
                            Err(false) => Err(format_err(ts[i + 2], text, f)),
                        },
                        _ => Err(parse_err(ts[i + 2], f)),
                    };
                    match value {
                        Err(_) => {},
                        Ok(v) => {
                            if i + 3 < ts.len() {
                                lemma_meta_upsert_keys(acc, name, v);
                                if ts[i + 3].kind is Comma {
                                    lemma_sp_meta_entries_unique(
                                        ts,
                                        i + 4,
                                        meta_upsert(acc, name, v),
                                        f,
                                    );
                                }
                            }
                        },
                    }
                }
            },
            _ => {},
        }
    }
}

/// A built schema's metadata keys are unique: a later entry for an
/// existing key replaces its value in place.
pub proof fn lemma_meta_keys_unique(ts: Seq<TokenView>, i: int, f: Seq<char>)
    ensures
        sp_meta(ts, i, f) matches Ok((ms, _)) ==> meta_keys_unique(ms),
{
    if 0 <= i < ts.len() && i + 1 < ts.len() {
        lemma_sp_meta_entries_unique(ts, i + 2, Seq::empty(), f);
    }
}

} // verus!
