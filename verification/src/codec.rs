//! The intermediate binary encoding of a validated schema: a
//! deterministic, lossless word-stream encoding of the abstract syntax
//! tree, used to hand the schema to a code-generation backend, in
//! process or across a process boundary.
//!
//! Every value is framed as little-endian 64-bit words: tags, flags,
//! lengths, character scalars and integer payloads.  Decoding reads
//! the same words back; `lemma_round_trip` proves that decoding an
//! encoded schema returns the schema itself.

use crate::ast::{
    decls_view, fields_view, meta_view, variants_view, BuiltinType, Declaration, DeclarationView,
    FieldType, FieldTypeView, FloatType, IntegerType, IntegerValue, MetadataValue,
    MetadataValueView, Schema, SchemaView,
};
use crate::text::push_char;
use vstd::bytes::{
    lemma_auto_spec_u64_to_from_le_bytes, spec_u64_from_le_bytes, spec_u64_to_le_bytes,
    u64_from_le_bytes, u64_to_le_bytes,
};
use vstd::prelude::*;

verus! {

/// One little-endian 64-bit word.
pub open spec fn enc_word(n: u64) -> Seq<u8> {
    spec_u64_to_le_bytes(n)
}

/// Reads one word at position `i`.
pub open spec fn dec_word(s: Seq<u8>, i: int) -> Option<(u64, int)> {
    if 0 <= i && i + 8 <= s.len() {
        Some((spec_u64_from_le_bytes(s.subrange(i, i + 8)), i + 8))
    } else {
        None
    }
}

proof fn lemma_dec_enc_word(s: Seq<u8>, i: int, n: u64)
    requires
        0 <= i,
        i + 8 <= s.len(),
        s.subrange(i, i + 8) == enc_word(n),
    ensures
        dec_word(s, i) == Some((n, i + 8)),
{
    lemma_auto_spec_u64_to_from_le_bytes();
}

/// Splits a decoded range into its first and second parts.
proof fn lemma_subrange_concat(s: Seq<u8>, i: int, a: Seq<u8>, b: Seq<u8>)
    requires
        0 <= i,
        i + a.len() + b.len() <= s.len(),
        s.subrange(i, i + a.len() + b.len()) == a + b,
    ensures
        s.subrange(i, i + a.len()) == a,
        s.subrange(i + a.len(), i + a.len() + b.len()) == b,
{
    let whole = s.subrange(i, i + a.len() + b.len());
    assert forall|k: int| 0 <= k < a.len() implies s.subrange(i, i + a.len())[k] == a[k] by {
        assert(whole[k] == (a + b)[k]);
    }
    assert(s.subrange(i, i + a.len()) =~= a);
    assert forall|k: int| 0 <= k < b.len() implies s.subrange(
        i + a.len(),
        i + a.len() + b.len(),
    )[k] == b[k] by {
        assert(whole[a.len() + k] == (a + b)[a.len() + k]);
    }
    assert(s.subrange(i + a.len(), i + a.len() + b.len()) =~= b);
}

/// A boolean as one word.
pub open spec fn enc_flag(b: bool) -> Seq<u8> {
    enc_word(if b {
        1u64
    } else {
        0u64
    })
}

/// Reads a boolean word: anything but zero or one is rejected.
pub open spec fn dec_flag(s: Seq<u8>, i: int) -> Option<(bool, int)> {
    match dec_word(s, i) {
        None => None,
        Some((n, j)) => if n == 0 {
            Some((false, j))
        } else if n == 1 {
            Some((true, j))
        } else {
            None
        },
    }
}

proof fn lemma_dec_enc_flag(s: Seq<u8>, i: int, b: bool)
    requires
        0 <= i,
        i + 8 <= s.len(),
        s.subrange(i, i + 8) == enc_flag(b),
    ensures
        dec_flag(s, i) == Some((b, i + 8)),
{
    lemma_dec_enc_word(s, i, if b { 1u64 } else { 0u64 });
}

/// A signed 64-bit value as two words: a sign flag, then the
/// magnitude.
pub open spec fn enc_i64(n: int) -> Seq<u8>
    recommends
        i64::MIN <= n <= i64::MAX,
{
    if n < 0 {
        enc_word(1) + enc_word((-n) as u64)
    } else {
        enc_word(0) + enc_word(n as u64)
    }
}

/// Reads a signed 64-bit value: a sign word that must be zero or one,
/// then a magnitude that must fit the signed range.
pub open spec fn dec_i64(s: Seq<u8>, i: int) -> Option<(int, int)> {
    match dec_word(s, i) {
        None => None,
        Some((sign, j)) => match dec_word(s, j) {
            None => None,
            Some((mag, k)) => if sign == 0 && mag <= i64::MAX as u64 {
                Some((mag as int, k))
            } else if sign == 1 && 1 <= mag <= 0x8000000000000000u64 {
                Some((-(mag as int), k))
            } else {
                None
            },
        },
    }
}

proof fn lemma_dec_enc_i64(s: Seq<u8>, i: int, n: int)
    requires
        0 <= i,
        i64::MIN <= n <= i64::MAX,
        i + 16 <= s.len(),
        s.subrange(i, i + 16) == enc_i64(n),
    ensures
        dec_i64(s, i) == Some((n, i + 16)),
{
    lemma_auto_spec_u64_to_from_le_bytes();
    if n < 0 {
        lemma_subrange_concat(s, i, enc_word(1), enc_word((-n) as u64));
        lemma_dec_enc_word(s, i, 1);
        lemma_dec_enc_word(s, i + 8, (-n) as u64);
    } else {
        lemma_subrange_concat(s, i, enc_word(0), enc_word(n as u64));
        lemma_dec_enc_word(s, i, 0);
        lemma_dec_enc_word(s, i + 8, n as u64);
    }
}

/// True for the scalar value of some character.
pub open spec fn valid_scalar(n: u64) -> bool {
    n <= 0x10FFFF && vstd::utf8::is_scalar(n as u32)
}

/// The character with a given scalar value.
pub open spec fn char_of(n: u64) -> char {
    (n as u32) as char
}

/// The characters of a string, one word each, by scalar value.
pub open spec fn enc_chars(t: Seq<char>) -> Seq<u8>
    decreases t.len(),
{
    if t.len() == 0 {
        Seq::empty()
    } else {
        enc_chars(t.drop_last()) + enc_word((t.last() as u32) as u64)
    }
}

/// Reads `n` characters at position `i`.
pub open spec fn dec_chars(s: Seq<u8>, i: int, n: nat) -> Option<(Seq<char>, int)>
    decreases n,
{
    if n == 0 {
        Some((Seq::empty(), i))
    } else {
        match dec_chars(s, i, (n - 1) as nat) {
            None => None,
            Some((t, j)) => match dec_word(s, j) {
                None => None,
                Some((w, k)) => if valid_scalar(w) {
                    Some((t.push(char_of(w)), k))
                } else {
                    None
                },
            },
        }
    }
}

proof fn lemma_enc_chars_len(t: Seq<char>)
    ensures
        enc_chars(t).len() == 8 * t.len(),
    decreases t.len(),
{
    lemma_auto_spec_u64_to_from_le_bytes();
    if t.len() > 0 {
        lemma_enc_chars_len(t.drop_last());
    }
}

proof fn lemma_dec_enc_chars(s: Seq<u8>, i: int, t: Seq<char>)
    requires
        0 <= i,
        i + enc_chars(t).len() <= s.len(),
        s.subrange(i, i + enc_chars(t).len()) == enc_chars(t),
    ensures
        dec_chars(s, i, t.len()) == Some((t, i + enc_chars(t).len())),
    decreases t.len(),
{
    lemma_enc_chars_len(t);
    if t.len() > 0 {
        let front = t.drop_last();
        let c = t.last();
        lemma_enc_chars_len(front);
        lemma_subrange_concat(s, i, enc_chars(front), enc_word((c as u32) as u64));
        lemma_dec_enc_chars(s, i, front);
        lemma_dec_enc_word(s, i + enc_chars(front).len(), (c as u32) as u64);
        vstd::utf8::char_is_scalar(c);
        assert(valid_scalar((c as u32) as u64));
        vstd::utf8::char_u32_cast(c, c as u32);
        assert(char_of((c as u32) as u64) == c);
        assert(front.push(c) =~= t);
    } else {
        assert(t =~= Seq::<char>::empty());
    }
}

/// A string as a length word followed by its characters.
pub open spec fn enc_str(t: Seq<char>) -> Seq<u8> {
    enc_word(t.len() as u64) + enc_chars(t)
}

/// Reads a string.
pub open spec fn dec_str(s: Seq<u8>, i: int) -> Option<(Seq<char>, int)> {
    match dec_word(s, i) {
        None => None,
        Some((n, j)) => dec_chars(s, j, n as nat),
    }
}

/// True when a string is short enough for its length word.
pub open spec fn str_ok(t: Seq<char>) -> bool {
    t.len() <= u64::MAX
}

proof fn lemma_dec_enc_str(s: Seq<u8>, i: int, t: Seq<char>)
    requires
        0 <= i,
        str_ok(t),
        i + enc_str(t).len() <= s.len(),
        s.subrange(i, i + enc_str(t).len()) == enc_str(t),
    ensures
        dec_str(s, i) == Some((t, i + enc_str(t).len())),
{
    lemma_auto_spec_u64_to_from_le_bytes();
    lemma_enc_chars_len(t);
    lemma_subrange_concat(s, i, enc_word(t.len() as u64), enc_chars(t));
    lemma_dec_enc_word(s, i, t.len() as u64);
    lemma_dec_enc_chars(s, i + 8, t);
}

/// The tag word of an integer type.
pub open spec fn int_type_tag(t: IntegerType) -> u64 {
    match t {
        IntegerType::I8 => 0,
        IntegerType::I16 => 1,
        IntegerType::I32 => 2,
        IntegerType::I64 => 3,
        IntegerType::U8 => 4,
        IntegerType::U16 => 5,
        IntegerType::U32 => 6,
        IntegerType::U64 => 7,
    }
}

/// The integer type of a tag word.
pub open spec fn int_type_of(tag: u64) -> Option<IntegerType> {
    if tag == 0 {
        Some(IntegerType::I8)
    } else if tag == 1 {
        Some(IntegerType::I16)
    } else if tag == 2 {
        Some(IntegerType::I32)
    } else if tag == 3 {
        Some(IntegerType::I64)
    } else if tag == 4 {
        Some(IntegerType::U8)
    } else if tag == 5 {
        Some(IntegerType::U16)
    } else if tag == 6 {
        Some(IntegerType::U32)
    } else if tag == 7 {
        Some(IntegerType::U64)
    } else {
        None
    }
}

/// An integer type as one tag word.
pub open spec fn enc_int_type(t: IntegerType) -> Seq<u8> {
    enc_word(int_type_tag(t))
}

/// Reads an integer type.
pub open spec fn dec_int_type(s: Seq<u8>, i: int) -> Option<(IntegerType, int)> {
    match dec_word(s, i) {
        None => None,
        Some((tag, j)) => match int_type_of(tag) {
            None => None,
            Some(t) => Some((t, j)),
        },
    }
}

proof fn lemma_dec_enc_int_type(s: Seq<u8>, i: int, t: IntegerType)
    requires
        0 <= i,
        i + 8 <= s.len(),
        s.subrange(i, i + 8) == enc_int_type(t),
    ensures
        dec_int_type(s, i) == Some((t, i + 8)),
{
    lemma_dec_enc_word(s, i, int_type_tag(t));
}

/// A builtin type as two words: a kind tag, then a subordinate tag.
pub open spec fn enc_builtin(bt: BuiltinType) -> Seq<u8> {
    match bt {
        BuiltinType::Integer(t) => enc_word(0) + enc_word(int_type_tag(t)),
        BuiltinType::Float(FloatType::F32) => enc_word(1) + enc_word(0),
        BuiltinType::Float(FloatType::F64) => enc_word(1) + enc_word(1),
        BuiltinType::String => enc_word(2) + enc_word(0),
        BuiltinType::Bool => enc_word(3) + enc_word(0),
    }
}

/// Reads a builtin type.
pub open spec fn dec_builtin(s: Seq<u8>, i: int) -> Option<(BuiltinType, int)> {
    match dec_word(s, i) {
        None => None,
        Some((tag, j)) => match dec_word(s, j) {
            None => None,
            Some((sub, k)) => {
                if tag == 0 {
                    match int_type_of(sub) {
                        None => None,
                        Some(t) => Some((BuiltinType::Integer(t), k)),
                    }
                } else if tag == 1 && sub == 0 {
                    Some((BuiltinType::Float(FloatType::F32), k))
                } else if tag == 1 && sub == 1 {
                    Some((BuiltinType::Float(FloatType::F64), k))
                } else if tag == 2 && sub == 0 {
                    Some((BuiltinType::String, k))
                } else if tag == 3 && sub == 0 {
                    Some((BuiltinType::Bool, k))
                } else {
                    None
                }
            },
        },
    }
}

proof fn lemma_dec_enc_builtin(s: Seq<u8>, i: int, bt: BuiltinType)
    requires
        0 <= i,
        i + 16 <= s.len(),
        s.subrange(i, i + 16) == enc_builtin(bt),
    ensures
        dec_builtin(s, i) == Some((bt, i + 16)),
{
    lemma_auto_spec_u64_to_from_le_bytes();
    match bt {
        BuiltinType::Integer(t) => {
            lemma_subrange_concat(s, i, enc_word(0), enc_word(int_type_tag(t)));
            lemma_dec_enc_word(s, i, 0);
            lemma_dec_enc_word(s, i + 8, int_type_tag(t));
        },
        BuiltinType::Float(FloatType::F32) => {
            lemma_subrange_concat(s, i, enc_word(1), enc_word(0));
            lemma_dec_enc_word(s, i, 1);
            lemma_dec_enc_word(s, i + 8, 0);
        },
        BuiltinType::Float(FloatType::F64) => {
            lemma_subrange_concat(s, i, enc_word(1), enc_word(1));
            lemma_dec_enc_word(s, i, 1);
            lemma_dec_enc_word(s, i + 8, 1);
        },
        BuiltinType::String => {
            lemma_subrange_concat(s, i, enc_word(2), enc_word(0));
            lemma_dec_enc_word(s, i, 2);
            lemma_dec_enc_word(s, i + 8, 0);
        },
        BuiltinType::Bool => {
            lemma_subrange_concat(s, i, enc_word(3), enc_word(0));
            lemma_dec_enc_word(s, i, 3);
            lemma_dec_enc_word(s, i + 8, 0);
        },
    }
}

/// An integer value as a type tag word and its payload: signed values
/// carry a sign flag and magnitude, unsigned values one word.
pub open spec fn enc_int_value(v: IntegerValue) -> Seq<u8> {
    match v {
        IntegerValue::I8(n) => enc_word(0) + enc_i64(n as int),
        IntegerValue::I16(n) => enc_word(1) + enc_i64(n as int),
        IntegerValue::I32(n) => enc_word(2) + enc_i64(n as int),
        IntegerValue::I64(n) => enc_word(3) + enc_i64(n as int),
        IntegerValue::U8(n) => enc_word(4) + enc_word(n as u64),
        IntegerValue::U16(n) => enc_word(5) + enc_word(n as u64),
        IntegerValue::U32(n) => enc_word(6) + enc_word(n as u64),
        IntegerValue::U64(n) => enc_word(7) + enc_word(n),
    }
}

/// Reads an integer value, rejecting a payload out of the tagged
/// type's range.
pub open spec fn dec_int_value(s: Seq<u8>, i: int) -> Option<(IntegerValue, int)> {
    match dec_word(s, i) {
        None => None,
        Some((tag, j)) => {
            if tag <= 3 {
                match dec_i64(s, j) {
                    None => None,
                    Some((n, k)) => {
                        if tag == 0 && i8::MIN <= n <= i8::MAX {
                            Some((IntegerValue::I8(n as i8), k))
                        } else if tag == 1 && i16::MIN <= n <= i16::MAX {
                            Some((IntegerValue::I16(n as i16), k))
                        } else if tag == 2 && i32::MIN <= n <= i32::MAX {
                            Some((IntegerValue::I32(n as i32), k))
                        } else if tag == 3 {
                            Some((IntegerValue::I64(n as i64), k))
                        } else {
                            None
                        }
                    },
                }
            } else if tag <= 7 {
                match dec_word(s, j) {
                    None => None,
                    Some((n, k)) => {
                        if tag == 4 && n <= u8::MAX as u64 {
                            Some((IntegerValue::U8(n as u8), k))
                        } else if tag == 5 && n <= u16::MAX as u64 {
                            Some((IntegerValue::U16(n as u16), k))
                        } else if tag == 6 && n <= u32::MAX as u64 {
                            Some((IntegerValue::U32(n as u32), k))
                        } else if tag == 7 {
                            Some((IntegerValue::U64(n), k))
                        } else {
                            None
                        }
                    },
                }
            } else {
                None
            }
        },
    }
}

/// The encoded size of an integer value.
pub open spec fn int_value_size(v: IntegerValue) -> int {
    match v {
        IntegerValue::I8(_) | IntegerValue::I16(_) | IntegerValue::I32(_)
            | IntegerValue::I64(_) => 24,
        IntegerValue::U8(_) | IntegerValue::U16(_) | IntegerValue::U32(_)
            | IntegerValue::U64(_) => 16,
    }
}

proof fn lemma_dec_enc_int_value(s: Seq<u8>, i: int, v: IntegerValue)
    requires
        0 <= i,
        i + enc_int_value(v).len() <= s.len(),
        s.subrange(i, i + enc_int_value(v).len()) == enc_int_value(v),
    ensures
        enc_int_value(v).len() == int_value_size(v),
        dec_int_value(s, i) == Some((v, i + enc_int_value(v).len())),
{
    lemma_auto_spec_u64_to_from_le_bytes();
    match v {
        IntegerValue::I8(n) => {
            lemma_subrange_concat(s, i, enc_word(0), enc_i64(n as int));
            lemma_dec_enc_word(s, i, 0);
            lemma_dec_enc_i64(s, i + 8, n as int);
        },
        IntegerValue::I16(n) => {
            lemma_subrange_concat(s, i, enc_word(1), enc_i64(n as int));
            lemma_dec_enc_word(s, i, 1);
            lemma_dec_enc_i64(s, i + 8, n as int);
        },
        IntegerValue::I32(n) => {
            lemma_subrange_concat(s, i, enc_word(2), enc_i64(n as int));
            lemma_dec_enc_word(s, i, 2);
            lemma_dec_enc_i64(s, i + 8, n as int);
        },
        IntegerValue::I64(n) => {
            lemma_subrange_concat(s, i, enc_word(3), enc_i64(n as int));
            lemma_dec_enc_word(s, i, 3);
            lemma_dec_enc_i64(s, i + 8, n as int);
        },
        IntegerValue::U8(n) => {
            lemma_subrange_concat(s, i, enc_word(4), enc_word(n as u64));
            lemma_dec_enc_word(s, i, 4);
            lemma_dec_enc_word(s, i + 8, n as u64);
        },
        IntegerValue::U16(n) => {
            lemma_subrange_concat(s, i, enc_word(5), enc_word(n as u64));
            lemma_dec_enc_word(s, i, 5);
            lemma_dec_enc_word(s, i + 8, n as u64);
        },
        IntegerValue::U32(n) => {
            lemma_subrange_concat(s, i, enc_word(6), enc_word(n as u64));
            lemma_dec_enc_word(s, i, 6);
            lemma_dec_enc_word(s, i + 8, n as u64);
        },
        IntegerValue::U64(n) => {
            lemma_subrange_concat(s, i, enc_word(7), enc_word(n));
            lemma_dec_enc_word(s, i, 7);
            lemma_dec_enc_word(s, i + 8, n);
        },
    }
}

/// An optional fixed length as a presence word, then the length.
pub open spec fn enc_opt_len(l: Option<usize>) -> Seq<u8> {
    match l {
        None => enc_word(0),
        Some(n) => enc_word(1) + enc_word(n as u64),
    }
}

/// Reads an optional fixed length.
pub open spec fn dec_opt_len(s: Seq<u8>, i: int) -> Option<(Option<usize>, int)> {
    match dec_word(s, i) {
        None => None,
        Some((p, j)) => {
            if p == 0 {
                Some((None, j))
            } else if p == 1 {
                match dec_word(s, j) {
                    None => None,
                    Some((n, k)) => if n <= usize::MAX as u64 {
                        Some((Some(n as usize), k))
                    } else {
                        None
                    },
                }
            } else {
                None
            }
        },
    }
}

proof fn lemma_dec_enc_opt_len(s: Seq<u8>, i: int, l: Option<usize>)
    requires
        0 <= i,
        i + enc_opt_len(l).len() <= s.len(),
        s.subrange(i, i + enc_opt_len(l).len()) == enc_opt_len(l),
    ensures
        dec_opt_len(s, i) == Some((l, i + enc_opt_len(l).len())),
{
    lemma_auto_spec_u64_to_from_le_bytes();
    match l {
        None => {
            lemma_dec_enc_word(s, i, 0);
        },
        Some(n) => {
            lemma_subrange_concat(s, i, enc_word(1), enc_word(n as u64));
            lemma_dec_enc_word(s, i, 1);
            lemma_dec_enc_word(s, i + 8, n as u64);
        },
    }
}

/// A field type, recursively: a kind tag word, the nullable flag, then
/// the kind's payload, with the recursive component last.
pub open spec fn enc_ft(ft: FieldTypeView) -> Seq<u8>
    decreases ft,
{
    match ft {
        FieldTypeView::Array(elem, len, nullable) => enc_word(0) + enc_flag(nullable)
            + enc_opt_len(len) + enc_ft(*elem),
        FieldTypeView::Mapping(key, value, nullable) => enc_word(1) + enc_flag(nullable)
            + enc_builtin(key) + enc_ft(*value),
        FieldTypeView::Builtin(bt, nullable) => enc_word(2) + enc_flag(nullable) + enc_builtin(bt),
        FieldTypeView::UserDefined(name, nullable) => enc_word(3) + enc_flag(nullable) + enc_str(
            name,
        ),
    }
}

/// Reads a field type.
pub open spec fn dec_ft(s: Seq<u8>, i: int) -> Option<(FieldTypeView, int)>
    decreases s.len() - i,
{
    match dec_word(s, i) {
        None => None,
        Some((tag, j1)) => match dec_flag(s, j1) {
            None => None,
            Some((nullable, j2)) => {
                if tag == 0 {
                    match dec_opt_len(s, j2) {
                        None => None,
                        Some((len, j3)) => match dec_ft(s, j3) {
                            None => None,
                            Some((elem, j4)) => Some(
                                (FieldTypeView::Array(Box::new(elem), len, nullable), j4),
                            ),
                        },
                    }
                } else if tag == 1 {
                    match dec_builtin(s, j2) {
                        None => None,
                        Some((key, j3)) => match dec_ft(s, j3) {
                            None => None,
                            Some((value, j4)) => Some(
                                (FieldTypeView::Mapping(key, Box::new(value), nullable), j4),
                            ),
                        },
                    }
                } else if tag == 2 {
                    match dec_builtin(s, j2) {
                        None => None,
                        Some((bt, j3)) => Some((FieldTypeView::Builtin(bt, nullable), j3)),
                    }
                } else if tag == 3 {
                    match dec_str(s, j2) {
                        None => None,
                        Some((name, j3)) => Some((FieldTypeView::UserDefined(name, nullable), j3)),
                    }
                } else {
                    None
                }
            },
        },
    }
}

/// True when every name within a field type fits its length word.
pub open spec fn ft_ok(ft: FieldTypeView) -> bool
    decreases ft,
{
    match ft {
        FieldTypeView::Array(elem, _, _) => ft_ok(*elem),
        FieldTypeView::Mapping(_, value, _) => ft_ok(*value),
        FieldTypeView::Builtin(_, _) => true,
        FieldTypeView::UserDefined(name, _) => str_ok(name),
    }
}

/// True when a field's name and type fit their length words.
pub open spec fn field_entry_ok(f: (Seq<char>, FieldTypeView)) -> bool {
    str_ok(f.0) && ft_ok(f.1)
}

proof fn lemma_dec_enc_ft(s: Seq<u8>, i: int, ft: FieldTypeView)
    requires
        0 <= i,
        ft_ok(ft),
        i + enc_ft(ft).len() <= s.len(),
        s.subrange(i, i + enc_ft(ft).len()) == enc_ft(ft),
    ensures
        dec_ft(s, i) == Some((ft, i + enc_ft(ft).len())),
    decreases ft,
{
    lemma_auto_spec_u64_to_from_le_bytes();
    match ft {
        FieldTypeView::Array(elem, len, nullable) => {
            let a = enc_word(0) + enc_flag(nullable) + enc_opt_len(len);
            let b = enc_ft(*elem);
            lemma_subrange_concat(s, i, a, b);
            lemma_subrange_concat(s, i, enc_word(0) + enc_flag(nullable), enc_opt_len(len));
            lemma_subrange_concat(s, i, enc_word(0), enc_flag(nullable));
            lemma_dec_enc_word(s, i, 0);
            lemma_dec_enc_flag(s, i + 8, nullable);
            lemma_dec_enc_opt_len(s, i + 16, len);
            lemma_dec_enc_ft(s, i + 16 + enc_opt_len(len).len(), *elem);
        },
        FieldTypeView::Mapping(key, value, nullable) => {
            let a = enc_word(1) + enc_flag(nullable) + enc_builtin(key);
            let b = enc_ft(*value);
            lemma_subrange_concat(s, i, a, b);
            lemma_subrange_concat(s, i, enc_word(1) + enc_flag(nullable), enc_builtin(key));
            lemma_subrange_concat(s, i, enc_word(1), enc_flag(nullable));
            lemma_dec_enc_word(s, i, 1);
            lemma_dec_enc_flag(s, i + 8, nullable);
            lemma_dec_enc_builtin(s, i + 16, key);
            lemma_dec_enc_ft(s, i + 32, *value);
        },
        FieldTypeView::Builtin(bt, nullable) => {
            lemma_subrange_concat(s, i, enc_word(2) + enc_flag(nullable), enc_builtin(bt));
            lemma_subrange_concat(s, i, enc_word(2), enc_flag(nullable));
            lemma_dec_enc_word(s, i, 2);
            lemma_dec_enc_flag(s, i + 8, nullable);
            lemma_dec_enc_builtin(s, i + 16, bt);
        },
        FieldTypeView::UserDefined(name, nullable) => {
            lemma_subrange_concat(s, i, enc_word(3) + enc_flag(nullable), enc_str(name));
            lemma_subrange_concat(s, i, enc_word(3), enc_flag(nullable));
            lemma_dec_enc_word(s, i, 3);
            lemma_dec_enc_flag(s, i + 8, nullable);
            lemma_dec_enc_str(s, i + 16, name);
        },
    }
}

/// An optional explicit variant value as a presence word, then the
/// value.
pub open spec fn enc_opt_val(v: Option<IntegerValue>) -> Seq<u8> {
    match v {
        None => enc_word(0),
        Some(x) => enc_word(1) + enc_int_value(x),
    }
}

/// Reads an optional explicit variant value.
pub open spec fn dec_opt_val(s: Seq<u8>, i: int) -> Option<(Option<IntegerValue>, int)> {
    match dec_word(s, i) {
        None => None,
        Some((p, j)) => {
            if p == 0 {
                Some((None, j))
            } else if p == 1 {
                match dec_int_value(s, j) {
                    None => None,
                    Some((x, k)) => Some((Some(x), k)),
                }
            } else {
                None
            }
        },
    }
}

proof fn lemma_dec_enc_opt_val(s: Seq<u8>, i: int, v: Option<IntegerValue>)
    requires
        0 <= i,
        i + enc_opt_val(v).len() <= s.len(),
        s.subrange(i, i + enc_opt_val(v).len()) == enc_opt_val(v),
    ensures
        dec_opt_val(s, i) == Some((v, i + enc_opt_val(v).len())),
{
    lemma_auto_spec_u64_to_from_le_bytes();
    match v {
        None => {
            lemma_dec_enc_word(s, i, 0);
        },
        Some(x) => {
            lemma_subrange_concat(s, i, enc_word(1), enc_int_value(x));
            lemma_dec_enc_word(s, i, 1);
            lemma_dec_enc_int_value(s, i + 8, x);
        },
    }
}

/// One enum variant: its name, then its optional explicit value.
pub open spec fn enc_variant(v: (Seq<char>, Option<IntegerValue>)) -> Seq<u8> {
    enc_str(v.0) + enc_opt_val(v.1)
}

/// Reads one enum variant.
pub open spec fn dec_variant(s: Seq<u8>, i: int) -> Option<
    ((Seq<char>, Option<IntegerValue>), int),
> {
    match dec_str(s, i) {
        None => None,
        Some((name, j)) => match dec_opt_val(s, j) {
            None => None,
            Some((v, k)) => Some(((name, v), k)),
        },
    }
}

proof fn lemma_dec_enc_variant(s: Seq<u8>, i: int, v: (Seq<char>, Option<IntegerValue>))
    requires
        0 <= i,
        str_ok(v.0),
        i + enc_variant(v).len() <= s.len(),
        s.subrange(i, i + enc_variant(v).len()) == enc_variant(v),
    ensures
        dec_variant(s, i) == Some((v, i + enc_variant(v).len())),
{
    lemma_subrange_concat(s, i, enc_str(v.0), enc_opt_val(v.1));
    lemma_dec_enc_str(s, i, v.0);
    lemma_dec_enc_opt_val(s, i + enc_str(v.0).len(), v.1);
}

/// The variants of one enum, in declaration order.
pub open spec fn enc_variants(vs: Seq<(Seq<char>, Option<IntegerValue>)>) -> Seq<u8>
    decreases vs.len(),
{
    if vs.len() == 0 {
        Seq::empty()
    } else {
        enc_variants(vs.drop_last()) + enc_variant(vs.last())
    }
}

/// Reads `n` enum variants.
pub open spec fn dec_variants(s: Seq<u8>, i: int, n: nat) -> Option<
    (Seq<(Seq<char>, Option<IntegerValue>)>, int),
>
    decreases n,
{
    if n == 0 {
        Some((Seq::empty(), i))
    } else {
        match dec_variants(s, i, (n - 1) as nat) {
            None => None,
            Some((vs, j)) => match dec_variant(s, j) {
                None => None,
                Some((v, k)) => Some((vs.push(v), k)),
            },
        }
    }
}

proof fn lemma_dec_enc_variants(s: Seq<u8>, i: int, vs: Seq<(Seq<char>, Option<IntegerValue>)>)
    requires
        0 <= i,
        forall|k: int| 0 <= k < vs.len() ==> str_ok(#[trigger] vs[k].0),
        i + enc_variants(vs).len() <= s.len(),
        s.subrange(i, i + enc_variants(vs).len()) == enc_variants(vs),
    ensures
        dec_variants(s, i, vs.len()) == Some((vs, i + enc_variants(vs).len())),
    decreases vs.len(),
{
    if vs.len() > 0 {
        let front = vs.drop_last();
        let v = vs.last();
        lemma_subrange_concat(s, i, enc_variants(front), enc_variant(v));
        lemma_dec_enc_variants(s, i, front);
        lemma_dec_enc_variant(s, i + enc_variants(front).len(), v);
        assert(front.push(v) =~= vs);
    } else {
        assert(vs =~= Seq::<(Seq<char>, Option<IntegerValue>)>::empty());
    }
}

/// One struct field: its name, then its type.
pub open spec fn enc_field(f: (Seq<char>, FieldTypeView)) -> Seq<u8> {
    enc_str(f.0) + enc_ft(f.1)
}

/// Reads one struct field.
pub open spec fn dec_field(s: Seq<u8>, i: int) -> Option<((Seq<char>, FieldTypeView), int)> {
    match dec_str(s, i) {
        None => None,
        Some((name, j)) => match dec_ft(s, j) {
            None => None,
            Some((ft, k)) => Some(((name, ft), k)),
        },
    }
}

proof fn lemma_dec_enc_field(s: Seq<u8>, i: int, f: (Seq<char>, FieldTypeView))
    requires
        0 <= i,
        str_ok(f.0),
        ft_ok(f.1),
        i + enc_field(f).len() <= s.len(),
        s.subrange(i, i + enc_field(f).len()) == enc_field(f),
    ensures
        dec_field(s, i) == Some((f, i + enc_field(f).len())),
{
    lemma_subrange_concat(s, i, enc_str(f.0), enc_ft(f.1));
    lemma_dec_enc_str(s, i, f.0);
    lemma_dec_enc_ft(s, i + enc_str(f.0).len(), f.1);
}

/// The fields of one struct, in declaration order.
pub open spec fn enc_fields(fs: Seq<(Seq<char>, FieldTypeView)>) -> Seq<u8>
    decreases fs.len(),
{
    if fs.len() == 0 {
        Seq::empty()
    } else {
        enc_fields(fs.drop_last()) + enc_field(fs.last())
    }
}

/// Reads `n` struct fields.
pub open spec fn dec_fields(s: Seq<u8>, i: int, n: nat) -> Option<
    (Seq<(Seq<char>, FieldTypeView)>, int),
>
    decreases n,
{
    if n == 0 {
        Some((Seq::empty(), i))
    } else {
        match dec_fields(s, i, (n - 1) as nat) {
            None => None,
            Some((fs, j)) => match dec_field(s, j) {
                None => None,
                Some((f, k)) => Some((fs.push(f), k)),
            },
        }
    }
}

proof fn lemma_dec_enc_fields(s: Seq<u8>, i: int, fs: Seq<(Seq<char>, FieldTypeView)>)
    requires
        0 <= i,
        forall|k: int| 0 <= k < fs.len() ==> field_entry_ok(#[trigger] fs[k]),
        i + enc_fields(fs).len() <= s.len(),
        s.subrange(i, i + enc_fields(fs).len()) == enc_fields(fs),
    ensures
        dec_fields(s, i, fs.len()) == Some((fs, i + enc_fields(fs).len())),
    decreases fs.len(),
{
    if fs.len() > 0 {
        let front = fs.drop_last();
        let f = fs.last();
        lemma_subrange_concat(s, i, enc_fields(front), enc_field(f));
        lemma_dec_enc_fields(s, i, front);
        lemma_dec_enc_field(s, i + enc_fields(front).len(), f);
        assert(front.push(f) =~= fs);
    } else {
        assert(fs =~= Seq::<(Seq<char>, FieldTypeView)>::empty());
    }
}

/// One declaration: a kind tag word, the identifier, then the kind's
/// members behind a count word.
pub open spec fn enc_decl(d: DeclarationView) -> Seq<u8> {
    match d {
        DeclarationView::Enum { ident, base_type, variants } => enc_word(0) + enc_str(ident)
            + enc_int_type(base_type) + enc_word(variants.len() as u64) + enc_variants(variants),
        DeclarationView::Struct { ident, fields } => enc_word(1) + enc_str(ident) + enc_word(
            fields.len() as u64,
        ) + enc_fields(fields),
    }
}

/// Reads one declaration.
pub open spec fn dec_decl(s: Seq<u8>, i: int) -> Option<(DeclarationView, int)> {
    match dec_word(s, i) {
        None => None,
        Some((tag, j1)) => {
            if tag == 0 {
                match dec_str(s, j1) {
                    None => None,
                    Some((ident, j2)) => match dec_int_type(s, j2) {
                        None => None,
                        Some((base_type, j3)) => match dec_word(s, j3) {
                            None => None,
                            Some((n, j4)) => match dec_variants(s, j4, n as nat) {
                                None => None,
                                Some((variants, j5)) => Some(
                                    (DeclarationView::Enum { ident, base_type, variants }, j5),
                                ),
                            },
                        },
                    },
                }
            } else if tag == 1 {
                match dec_str(s, j1) {
                    None => None,
                    Some((ident, j2)) => match dec_word(s, j2) {
                        None => None,
                        Some((n, j3)) => match dec_fields(s, j3, n as nat) {
                            None => None,
                            Some((fields, j4)) => Some(
                                (DeclarationView::Struct { ident, fields }, j4),
                            ),
                        },
                    },
                }
            } else {
                None
            }
        },
    }
}

/// True when a declaration's names and member list fit their length
/// words.
pub open spec fn decl_ok(d: DeclarationView) -> bool {
    match d {
        DeclarationView::Enum { ident, variants, .. } => {
            &&& str_ok(ident)
            &&& variants.len() <= u64::MAX
            &&& forall|k: int| 0 <= k < variants.len() ==> str_ok(#[trigger] variants[k].0)
        },
        DeclarationView::Struct { ident, fields } => {
            &&& str_ok(ident)
            &&& fields.len() <= u64::MAX
            &&& forall|k: int| 0 <= k < fields.len() ==> field_entry_ok(#[trigger] fields[k])
        },
    }
}

proof fn lemma_dec_enc_decl(s: Seq<u8>, i: int, d: DeclarationView)
    requires
        0 <= i,
        decl_ok(d),
        i + enc_decl(d).len() <= s.len(),
        s.subrange(i, i + enc_decl(d).len()) == enc_decl(d),
    ensures
        dec_decl(s, i) == Some((d, i + enc_decl(d).len())),
{
    lemma_auto_spec_u64_to_from_le_bytes();
    match d {
        DeclarationView::Enum { ident, base_type, variants } => {
            let p1 = enc_word(0);
            let p2 = enc_str(ident);
            let p3 = enc_int_type(base_type);
            let p4 = enc_word(variants.len() as u64);
            let p5 = enc_variants(variants);
            lemma_subrange_concat(s, i, p1 + p2 + p3 + p4, p5);
            lemma_subrange_concat(s, i, p1 + p2 + p3, p4);
            lemma_subrange_concat(s, i, p1 + p2, p3);
            lemma_subrange_concat(s, i, p1, p2);
            lemma_dec_enc_word(s, i, 0);
            lemma_dec_enc_str(s, i + 8, ident);
            lemma_dec_enc_int_type(s, i + 8 + p2.len(), base_type);
            lemma_dec_enc_word(s, i + 8 + p2.len() + 8, variants.len() as u64);
            lemma_dec_enc_variants(s, i + 8 + p2.len() + 16, variants);
        },
        DeclarationView::Struct { ident, fields } => {
            let p1 = enc_word(1);
            let p2 = enc_str(ident);
            let p3 = enc_word(fields.len() as u64);
            let p4 = enc_fields(fields);
            lemma_subrange_concat(s, i, p1 + p2 + p3, p4);
            lemma_subrange_concat(s, i, p1 + p2, p3);
            lemma_subrange_concat(s, i, p1, p2);
            lemma_dec_enc_word(s, i, 1);
            lemma_dec_enc_str(s, i + 8, ident);
            lemma_dec_enc_word(s, i + 8 + p2.len(), fields.len() as u64);
            lemma_dec_enc_fields(s, i + 8 + p2.len() + 8, fields);
        },
    }
}

/// The declarations of a schema, in source order.
pub open spec fn enc_decls(ds: Seq<DeclarationView>) -> Seq<u8>
    decreases ds.len(),
{
    if ds.len() == 0 {
        Seq::empty()
    } else {
        enc_decls(ds.drop_last()) + enc_decl(ds.last())
    }
}

/// Reads `n` declarations.
pub open spec fn dec_decls(s: Seq<u8>, i: int, n: nat) -> Option<(Seq<DeclarationView>, int)>
    decreases n,
{
    if n == 0 {
        Some((Seq::empty(), i))
    } else {
        match dec_decls(s, i, (n - 1) as nat) {
            None => None,
            Some((ds, j)) => match dec_decl(s, j) {
                None => None,
                Some((d, k)) => Some((ds.push(d), k)),
            },
        }
    }
}

proof fn lemma_dec_enc_decls(s: Seq<u8>, i: int, ds: Seq<DeclarationView>)
    requires
        0 <= i,
        forall|k: int| 0 <= k < ds.len() ==> decl_ok(#[trigger] ds[k]),
        i + enc_decls(ds).len() <= s.len(),
        s.subrange(i, i + enc_decls(ds).len()) == enc_decls(ds),
    ensures
        dec_decls(s, i, ds.len()) == Some((ds, i + enc_decls(ds).len())),
    decreases ds.len(),
{
    if ds.len() > 0 {
        let front = ds.drop_last();
        let d = ds.last();
        lemma_subrange_concat(s, i, enc_decls(front), enc_decl(d));
        lemma_dec_enc_decls(s, i, front);
        lemma_dec_enc_decl(s, i + enc_decls(front).len(), d);
        assert(front.push(d) =~= ds);
    } else {
        assert(ds =~= Seq::<DeclarationView>::empty());
    }
}

/// One metadata value: a kind tag word, then a string or an integer
/// value.
pub open spec fn enc_meta_value(v: MetadataValueView) -> Seq<u8> {
    match v {
        MetadataValueView::String(t) => enc_word(0) + enc_str(t),
        MetadataValueView::Integer(x) => enc_word(1) + enc_int_value(x),
    }
}

/// Reads one metadata value.
pub open spec fn dec_meta_value(s: Seq<u8>, i: int) -> Option<(MetadataValueView, int)> {
    match dec_word(s, i) {
        None => None,
        Some((tag, j)) => {
            if tag == 0 {
                match dec_str(s, j) {
                    None => None,
                    Some((t, k)) => Some((MetadataValueView::String(t), k)),
                }
            } else if tag == 1 {
                match dec_int_value(s, j) {
                    None => None,
                    Some((x, k)) => Some((MetadataValueView::Integer(x), k)),
                }
            } else {
                None
            }
        },
    }
}

/// True when a metadata value's string fits its length word.
pub open spec fn meta_value_ok(v: MetadataValueView) -> bool {
    match v {
        MetadataValueView::String(t) => str_ok(t),
        MetadataValueView::Integer(_) => true,
    }
}

/// True when a metadata entry's key and value fit their length words.
pub open spec fn meta_entry_ok(m: (Seq<char>, MetadataValueView)) -> bool {
    str_ok(m.0) && meta_value_ok(m.1)
}

proof fn lemma_dec_enc_meta_value(s: Seq<u8>, i: int, v: MetadataValueView)
    requires
        0 <= i,
        meta_value_ok(v),
        i + enc_meta_value(v).len() <= s.len(),
        s.subrange(i, i + enc_meta_value(v).len()) == enc_meta_value(v),
    ensures
        dec_meta_value(s, i) == Some((v, i + enc_meta_value(v).len())),
{
    lemma_auto_spec_u64_to_from_le_bytes();
    match v {
        MetadataValueView::String(t) => {
            lemma_subrange_concat(s, i, enc_word(0), enc_str(t));
            lemma_dec_enc_word(s, i, 0);
            lemma_dec_enc_str(s, i + 8, t);
        },
        MetadataValueView::Integer(x) => {
            lemma_subrange_concat(s, i, enc_word(1), enc_int_value(x));
            lemma_dec_enc_word(s, i, 1);
            lemma_dec_enc_int_value(s, i + 8, x);
        },
    }
}

/// One metadata entry: its key, then its value.
pub open spec fn enc_meta_entry(m: (Seq<char>, MetadataValueView)) -> Seq<u8> {
    enc_str(m.0) + enc_meta_value(m.1)
}

/// Reads one metadata entry.
pub open spec fn dec_meta_entry(s: Seq<u8>, i: int) -> Option<
    ((Seq<char>, MetadataValueView), int),
> {
    match dec_str(s, i) {
        None => None,
        Some((k, j)) => match dec_meta_value(s, j) {
            None => None,
            Some((v, l)) => Some(((k, v), l)),
        },
    }
}

proof fn lemma_dec_enc_meta_entry(s: Seq<u8>, i: int, m: (Seq<char>, MetadataValueView))
    requires
        0 <= i,
        str_ok(m.0),
        meta_value_ok(m.1),
        i + enc_meta_entry(m).len() <= s.len(),
        s.subrange(i, i + enc_meta_entry(m).len()) == enc_meta_entry(m),
    ensures
        dec_meta_entry(s, i) == Some((m, i + enc_meta_entry(m).len())),
{
    lemma_subrange_concat(s, i, enc_str(m.0), enc_meta_value(m.1));
    lemma_dec_enc_str(s, i, m.0);
    lemma_dec_enc_meta_value(s, i + enc_str(m.0).len(), m.1);
}

/// The metadata entries of a schema, in insertion order.
pub open spec fn enc_meta(ms: Seq<(Seq<char>, MetadataValueView)>) -> Seq<u8>
    decreases ms.len(),
{
    if ms.len() == 0 {
        Seq::empty()
    } else {
        enc_meta(ms.drop_last()) + enc_meta_entry(ms.last())
    }
}

/// Reads `n` metadata entries.
pub open spec fn dec_meta(s: Seq<u8>, i: int, n: nat) -> Option<
    (Seq<(Seq<char>, MetadataValueView)>, int),
>
    decreases n,
{
    if n == 0 {
        Some((Seq::empty(), i))
    } else {
        match dec_meta(s, i, (n - 1) as nat) {
            None => None,
            Some((ms, j)) => match dec_meta_entry(s, j) {
                None => None,
                Some((m, k)) => Some((ms.push(m), k)),
            },
        }
    }
}

proof fn lemma_dec_enc_meta(s: Seq<u8>, i: int, ms: Seq<(Seq<char>, MetadataValueView)>)
    requires
        0 <= i,
        forall|k: int| 0 <= k < ms.len() ==> meta_entry_ok(#[trigger] ms[k]),
        i + enc_meta(ms).len() <= s.len(),
        s.subrange(i, i + enc_meta(ms).len()) == enc_meta(ms),
    ensures
        dec_meta(s, i, ms.len()) == Some((ms, i + enc_meta(ms).len())),
    decreases ms.len(),
{
    if ms.len() > 0 {
        let front = ms.drop_last();
        let m = ms.last();
        lemma_subrange_concat(s, i, enc_meta(front), enc_meta_entry(m));
        lemma_dec_enc_meta(s, i, front);
        lemma_dec_enc_meta_entry(s, i + enc_meta(front).len(), m);
        assert(front.push(m) =~= ms);
    } else {
        assert(ms =~= Seq::<(Seq<char>, MetadataValueView)>::empty());
    }
}

/// A whole schema: its metadata entries behind a count word, then its
/// declarations behind a count word.
pub open spec fn enc_schema(v: SchemaView) -> Seq<u8> {
    enc_word(v.metadata.len() as u64) + enc_meta(v.metadata) + enc_word(v.declarations.len() as u64)
        + enc_decls(v.declarations)
}

/// Reads a whole schema.
pub open spec fn dec_schema(s: Seq<u8>, i: int) -> Option<(SchemaView, int)> {
    match dec_word(s, i) {
        None => None,
        Some((nm, j1)) => match dec_meta(s, j1, nm as nat) {
            None => None,
            Some((metadata, j2)) => match dec_word(s, j2) {
                None => None,
                Some((nd, j3)) => match dec_decls(s, j3, nd as nat) {
                    None => None,
                    Some((declarations, j4)) => Some((SchemaView { metadata, declarations }, j4)),
                },
            },
        },
    }
}

/// True when every name and list of a schema fits its length word —
/// true of every schema held in memory.
pub open spec fn schema_ok(v: SchemaView) -> bool {
    &&& v.metadata.len() <= u64::MAX
    &&& forall|k: int| 0 <= k < v.metadata.len() ==> meta_entry_ok(#[trigger] v.metadata[k])
    &&& v.declarations.len() <= u64::MAX
    &&& forall|k: int| 0 <= k < v.declarations.len() ==> decl_ok(#[trigger] v.declarations[k])
}

/// Decoding an encoded schema, at any position within a larger buffer,
/// returns the schema itself: the encoding is lossless.
pub proof fn lemma_dec_enc_schema(s: Seq<u8>, i: int, v: SchemaView)
    requires
        0 <= i,
        schema_ok(v),
        i + enc_schema(v).len() <= s.len(),
        s.subrange(i, i + enc_schema(v).len()) == enc_schema(v),
    ensures
        dec_schema(s, i) == Some((v, i + enc_schema(v).len())),
{
    lemma_auto_spec_u64_to_from_le_bytes();
    let p1 = enc_word(v.metadata.len() as u64);
    let p2 = enc_meta(v.metadata);
    let p3 = enc_word(v.declarations.len() as u64);
    let p4 = enc_decls(v.declarations);
    lemma_subrange_concat(s, i, p1 + p2 + p3, p4);
    lemma_subrange_concat(s, i, p1 + p2, p3);
    lemma_subrange_concat(s, i, p1, p2);
    lemma_dec_enc_word(s, i, v.metadata.len() as u64);
    lemma_dec_enc_meta(s, i + 8, v.metadata);
    lemma_dec_enc_word(s, i + 8 + p2.len(), v.declarations.len() as u64);
    lemma_dec_enc_decls(s, i + 8 + p2.len() + 8, v.declarations);
}

/// Round trip: decoding the encoding of any schema gives back that
/// schema, consuming exactly the encoded bytes.
pub proof fn lemma_round_trip(v: SchemaView)
    requires
        schema_ok(v),
    ensures
        dec_schema(enc_schema(v), 0) == Some((v, enc_schema(v).len() as int)),
{
    let s = enc_schema(v);
    assert(s.subrange(0, s.len() as int) =~= s);
    lemma_dec_enc_schema(s, 0, v);
}

fn push_word(out: &mut Vec<u8>, n: u64)
    ensures
        final(out)@ == old(out)@ + enc_word(n),
{
    let mut w = u64_to_le_bytes(n);
    out.append(&mut w);
}

#[verifier::loop_isolation(false)]
fn encode_str_into(out: &mut Vec<u8>, t: &str)
    ensures
        final(out)@ == old(out)@ + enc_str(t@),
        str_ok(t@),
{
    let n = t.unicode_len();
    push_word(out, n as u64);
    let ghost base = old(out)@ + enc_word(n as u64);
    let mut i: usize = 0;
    proof {
        assert(enc_chars(t@.take(0)) =~= Seq::<u8>::empty());
        assert(out@ =~= base + enc_chars(t@.take(0)));
    }
    while i < n
        invariant
            n == t@.len(),
            0 <= i <= n,
            out@ == base + enc_chars(t@.take(i as int)),
        decreases n - i,
    {
        let c = t.get_char(i);
        let ghost pre = out@;
        push_word(out, (c as u32) as u64);
        proof {
            assert(t@.take(i as int + 1).drop_last() =~= t@.take(i as int));
            assert(t@.take(i as int + 1).last() == t@[i as int]);
            assert(out@ =~= base + enc_chars(t@.take(i as int + 1)));
        }
        i += 1;
    }
    proof {
        assert(t@.take(n as int) =~= t@);
    }
}

fn encode_i64_into(out: &mut Vec<u8>, n: i64)
    ensures
        final(out)@ == old(out)@ + enc_i64(n as int),
{
    if n < 0 {
        let mag: u64 = ((-(n + 1)) as u64) + 1;
        proof {
            assert(mag as int == -(n as int));
        }
        push_word(out, 1);
        push_word(out, mag);
        proof {
            assert(out@ =~= old(out)@ + enc_i64(n as int));
        }
    } else {
        push_word(out, 0);
        push_word(out, n as u64);
        proof {
            assert(out@ =~= old(out)@ + enc_i64(n as int));
        }
    }
}

fn int_type_tag_of(t: &IntegerType) -> (r: u64)
    ensures
        r == int_type_tag(*t),
{
    match t {
        IntegerType::I8 => 0,
        IntegerType::I16 => 1,
        IntegerType::I32 => 2,
        IntegerType::I64 => 3,
        IntegerType::U8 => 4,
        IntegerType::U16 => 5,
        IntegerType::U32 => 6,
        IntegerType::U64 => 7,
    }
}

fn encode_builtin_into(out: &mut Vec<u8>, bt: &BuiltinType)
    ensures
        final(out)@ == old(out)@ + enc_builtin(*bt),
{
    match bt {
        BuiltinType::Integer(t) => {
            push_word(out, 0);
            push_word(out, int_type_tag_of(t));
        },
        BuiltinType::Float(FloatType::F32) => {
            push_word(out, 1);
            push_word(out, 0);
        },
        BuiltinType::Float(FloatType::F64) => {
            push_word(out, 1);
            push_word(out, 1);
        },
        BuiltinType::String => {
            push_word(out, 2);
            push_word(out, 0);
        },
        BuiltinType::Bool => {
            push_word(out, 3);
            push_word(out, 0);
        },
    }
    proof {
        assert(out@ =~= old(out)@ + enc_builtin(*bt));
    }
}

fn encode_int_value_into(out: &mut Vec<u8>, v: &IntegerValue)
    ensures
        final(out)@ == old(out)@ + enc_int_value(*v),
{
    match v {
        IntegerValue::I8(n) => {
            push_word(out, 0);
            encode_i64_into(out, *n as i64);
        },
        IntegerValue::I16(n) => {
            push_word(out, 1);
            encode_i64_into(out, *n as i64);
        },
        IntegerValue::I32(n) => {
            push_word(out, 2);
            encode_i64_into(out, *n as i64);
        },
        IntegerValue::I64(n) => {
            push_word(out, 3);
            encode_i64_into(out, *n);
        },
        IntegerValue::U8(n) => {
            push_word(out, 4);
            push_word(out, *n as u64);
        },
        IntegerValue::U16(n) => {
            push_word(out, 5);
            push_word(out, *n as u64);
        },
        IntegerValue::U32(n) => {
            push_word(out, 6);
            push_word(out, *n as u64);
        },
        IntegerValue::U64(n) => {
            push_word(out, 7);
            push_word(out, *n);
        },
    }
    proof {
        assert(out@ =~= old(out)@ + enc_int_value(*v));
    }
}

fn encode_flag_into(out: &mut Vec<u8>, b: bool)
    ensures
        final(out)@ == old(out)@ + enc_flag(b),
{
    if b {
        push_word(out, 1);
    } else {
        push_word(out, 0);
    }
}

#[verifier::rlimit(100)]
fn encode_ft_into(out: &mut Vec<u8>, ft: &FieldType)
    ensures
        final(out)@ == old(out)@ + enc_ft(ft@),
        ft_ok(ft@),
    decreases ft,
{
    match ft {
        FieldType::Array(elem, len, nullable) => {
            push_word(out, 0);
            encode_flag_into(out, *nullable);
            match len {
                None => {
                    push_word(out, 0);
                },
                Some(l) => {
                    push_word(out, 1);
                    push_word(out, *l as u64);
                },
            }
            encode_ft_into(out, &*elem);
            proof {
                assert(out@ =~= old(out)@ + enc_ft(ft@));
            }
        },
        FieldType::Mapping(key, value, nullable) => {
            push_word(out, 1);
            encode_flag_into(out, *nullable);
            encode_builtin_into(out, key);
            encode_ft_into(out, &*value);
            proof {
                assert(out@ =~= old(out)@ + enc_ft(ft@));
            }
        },
        FieldType::Builtin(bt, nullable) => {
            push_word(out, 2);
            encode_flag_into(out, *nullable);
            encode_builtin_into(out, bt);
            proof {
                assert(out@ =~= old(out)@ + enc_ft(ft@));
            }
        },
        FieldType::UserDefined(name, nullable) => {
            push_word(out, 3);
            encode_flag_into(out, *nullable);
            encode_str_into(out, name.as_str());
            proof {
                assert(out@ =~= old(out)@ + enc_ft(ft@));
            }
        },
    }
}

#[verifier::loop_isolation(false)]
#[verifier::rlimit(100)]
fn encode_decl_into(out: &mut Vec<u8>, d: &Declaration)
    ensures
        final(out)@ == old(out)@ + enc_decl(d@),
        decl_ok(d@),
{
    match d {
        Declaration::Enum { ident, base_type, variants } => {
            let ghost vs = d@->Enum_variants;
            push_word(out, 0);
            encode_str_into(out, ident.as_str());
            push_word(out, int_type_tag_of(base_type));
            let n = variants.len();
            push_word(out, n as u64);
            let ghost base = out@;
            let mut i: usize = 0;
            proof {
                assert(enc_variants(vs.take(0)) =~= Seq::<u8>::empty());
                assert(out@ =~= base + enc_variants(vs.take(0)));
            }
            while i < n
                invariant
                    n == variants@.len(),
                    0 <= i <= n,
                    out@ == base + enc_variants(vs.take(i as int)),
                    forall|k: int| 0 <= k < i ==> str_ok(#[trigger] vs[k].0),
                decreases n - i,
            {
                let ghost pre = out@;
                proof {
                    assert(vs[i as int] == (variants@[i as int].0@, variants@[i as int].1));
                }
                encode_str_into(out, variants[i].0.as_str());
                match &variants[i].1 {
                    None => {
                        push_word(out, 0);
                    },
                    Some(x) => {
                        push_word(out, 1);
                        encode_int_value_into(out, x);
                    },
                }
                proof {
                    assert(str_ok(vs[i as int].0));
                    assert(out@ =~= pre + enc_variant(vs[i as int]));
                    assert(vs.take(i as int + 1).drop_last() =~= vs.take(i as int));
                    assert(out@ =~= base + enc_variants(vs.take(i as int + 1)));
                }
                i += 1;
            }
            proof {
                assert(vs.take(n as int) =~= vs);
                assert(out@ =~= old(out)@ + enc_decl(d@));
                assert(vs.len() <= u64::MAX);
                assert(str_ok(ident@));
                assert(decl_ok(d@));
            }
        },
        Declaration::Struct { ident, fields } => {
            let ghost fs = d@->Struct_fields;
            push_word(out, 1);
            encode_str_into(out, ident.as_str());
            let n = fields.len();
            push_word(out, n as u64);
            let ghost base = out@;
            let mut i: usize = 0;
            proof {
                assert(enc_fields(fs.take(0)) =~= Seq::<u8>::empty());
                assert(out@ =~= base + enc_fields(fs.take(0)));
            }
            while i < n
                invariant
                    n == fields@.len(),
                    0 <= i <= n,
                    out@ == base + enc_fields(fs.take(i as int)),
                    forall|k: int| 0 <= k < i ==> field_entry_ok(#[trigger] fs[k]),
                decreases n - i,
            {
                let ghost pre = out@;
                proof {
                    assert(fs[i as int] == (fields@[i as int].0@, fields@[i as int].1@));
                }
                encode_str_into(out, fields[i].0.as_str());
                encode_ft_into(out, &fields[i].1);
                proof {
                    assert(str_ok(fs[i as int].0));
                    assert(ft_ok(fs[i as int].1));
                    assert(field_entry_ok(fs[i as int]));
                    assert(out@ =~= pre + enc_field(fs[i as int]));
                    assert(fs.take(i as int + 1).drop_last() =~= fs.take(i as int));
                    assert(out@ =~= base + enc_fields(fs.take(i as int + 1)));
                }
                i += 1;
            }
            proof {
                assert(fs.take(n as int) =~= fs);
                assert(out@ =~= old(out)@ + enc_decl(d@));
                assert(fs.len() <= u64::MAX);
                assert(str_ok(ident@));
                assert(decl_ok(d@));
            }
        },
    }
}

/// Encodes a schema to its intermediate binary form.  The bytes are a
/// function of the schema alone: the encoding is deterministic.
#[verifier::loop_isolation(false)]
pub fn encode(schema: &Schema) -> (r: Vec<u8>)
    ensures
        r@ == enc_schema(schema@),
        schema_ok(schema@),
{
    let ghost ms = schema@.metadata;
    let ghost ds = schema@.declarations;
    let mut out: Vec<u8> = Vec::new();
    let nm = schema.metadata.len();
    push_word(&mut out, nm as u64);
    let ghost base1 = out@;
    let mut i: usize = 0;
    proof {
        assert(enc_meta(ms.take(0)) =~= Seq::<u8>::empty());
        assert(out@ =~= base1 + enc_meta(ms.take(0)));
    }
    while i < nm
        invariant
            nm == schema.metadata@.len(),
            0 <= i <= nm,
            out@ == base1 + enc_meta(ms.take(i as int)),
            forall|k: int| 0 <= k < i ==> meta_entry_ok(#[trigger] ms[k]),
        decreases nm - i,
    {
        let ghost pre = out@;
        proof {
            assert(ms[i as int] == (schema.metadata@[i as int].0@, schema.metadata@[i as int].1@));
        }
        encode_str_into(&mut out, schema.metadata[i].0.as_str());
        match &schema.metadata[i].1 {
            MetadataValue::String(t) => {
                push_word(&mut out, 0);
                encode_str_into(&mut out, t.as_str());
                proof {
                    assert(ms[i as int].1 == MetadataValueView::String(t@));
                    assert(meta_value_ok(ms[i as int].1));
                }
            },
            MetadataValue::Integer(x) => {
                push_word(&mut out, 1);
                encode_int_value_into(&mut out, x);
                proof {
                    assert(meta_value_ok(ms[i as int].1));
                }
            },
        }
        proof {
            assert(str_ok(ms[i as int].0));
            assert(meta_value_ok(ms[i as int].1));
            assert(meta_entry_ok(ms[i as int]));
            assert(out@ =~= pre + enc_meta_entry(ms[i as int]));
            assert(ms.take(i as int + 1).drop_last() =~= ms.take(i as int));
            assert(out@ =~= base1 + enc_meta(ms.take(i as int + 1)));
        }
        i += 1;
    }
    proof {
        assert(ms.take(nm as int) =~= ms);
    }
    let nd = schema.declarations.len();
    push_word(&mut out, nd as u64);
    let ghost base2 = out@;
    let mut j: usize = 0;
    proof {
        assert(enc_decls(ds.take(0)) =~= Seq::<u8>::empty());
        assert(out@ =~= base2 + enc_decls(ds.take(0)));
    }
    while j < nd
        invariant
            nd == schema.declarations@.len(),
            0 <= j <= nd,
            out@ == base2 + enc_decls(ds.take(j as int)),
            forall|k: int| 0 <= k < j ==> decl_ok(#[trigger] ds[k]),
        decreases nd - j,
    {
        let ghost pre = out@;
        proof {
            assert(ds[j as int] == schema.declarations@[j as int]@);
        }
        encode_decl_into(&mut out, &schema.declarations[j]);
        proof {
            assert(ds.take(j as int + 1).drop_last() =~= ds.take(j as int));
            assert(out@ =~= base2 + enc_decls(ds.take(j as int + 1)));
        }
        j += 1;
    }
    proof {
        assert(ds.take(nd as int) =~= ds);
        assert(out@ =~= enc_schema(schema@));
    }
    out
}

proof fn lemma_dec_chars_mono_fail(s: Seq<u8>, i: int, k: nat, n: nat)
    requires
        k <= n,
        dec_chars(s, i, k) is None,
    ensures
        dec_chars(s, i, n) is None,
    decreases n,
{
    if n > k {
        lemma_dec_chars_mono_fail(s, i, k, (n - 1) as nat);
    }
}

proof fn lemma_dec_variants_mono_fail(s: Seq<u8>, i: int, k: nat, n: nat)
    requires
        k <= n,
        dec_variants(s, i, k) is None,
    ensures
        dec_variants(s, i, n) is None,
    decreases n,
{
    if n > k {
        lemma_dec_variants_mono_fail(s, i, k, (n - 1) as nat);
    }
}

proof fn lemma_dec_fields_mono_fail(s: Seq<u8>, i: int, k: nat, n: nat)
    requires
        k <= n,
        dec_fields(s, i, k) is None,
    ensures
        dec_fields(s, i, n) is None,
    decreases n,
{
    if n > k {
        lemma_dec_fields_mono_fail(s, i, k, (n - 1) as nat);
    }
}

proof fn lemma_dec_decls_mono_fail(s: Seq<u8>, i: int, k: nat, n: nat)
    requires
        k <= n,
        dec_decls(s, i, k) is None,
    ensures
        dec_decls(s, i, n) is None,
    decreases n,
{
    if n > k {
        lemma_dec_decls_mono_fail(s, i, k, (n - 1) as nat);
    }
}

proof fn lemma_dec_meta_mono_fail(s: Seq<u8>, i: int, k: nat, n: nat)
    requires
        k <= n,
        dec_meta(s, i, k) is None,
    ensures
        dec_meta(s, i, n) is None,
    decreases n,
{
    if n > k {
        lemma_dec_meta_mono_fail(s, i, k, (n - 1) as nat);
    }
}

fn read_word(s: &[u8], i: usize) -> (r: Option<(u64, usize)>)
    ensures
        match r {
            Some((n, j)) => dec_word(s@, i as int) == Some((n, j as int)) && i < j <= s@.len(),
            None => dec_word(s@, i as int) is None,
        },
{
    if s.len() >= 8 && i <= s.len() - 8 {
        let w = vstd::slice::slice_subrange(s, i, i + 8);
        let n = u64_from_le_bytes(w);
        Some((n, i + 8))
    } else {
        None
    }
}

fn read_flag(s: &[u8], i: usize) -> (r: Option<(bool, usize)>)
    ensures
        match r {
            Some((b, j)) => dec_flag(s@, i as int) == Some((b, j as int)) && i < j <= s@.len(),
            None => dec_flag(s@, i as int) is None,
        },
{
    match read_word(s, i) {
        None => None,
        Some((n, j)) => {
            if n == 0 {
                Some((false, j))
            } else if n == 1 {
                Some((true, j))
            } else {
                None
            }
        },
    }
}

fn read_i64(s: &[u8], i: usize) -> (r: Option<(i64, usize)>)
    ensures
        match r {
            Some((n, j)) => dec_i64(s@, i as int) == Some((n as int, j as int)) && i < j
                <= s@.len(),
            None => dec_i64(s@, i as int) is None,
        },
{
    match read_word(s, i) {
        None => None,
        Some((sign, j)) => match read_word(s, j) {
            None => None,
            Some((mag, k)) => {
                if sign == 0 && mag <= 0x7fffffffffffffff {
                    Some((mag as i64, k))
                } else if sign == 1 && 1 <= mag && mag <= 0x8000000000000000 {
                    if mag == 0x8000000000000000 {
                        Some((i64::MIN, k))
                    } else {
                        Some((-(mag as i64), k))
                    }
                } else {
                    None
                }
            },
        },
    }
}

/// Relies on std's char::from_u32: converts exactly the Unicode
/// scalar values, and the resulting character has the given value.
#[verifier::external_body]
fn char_from_u32(n: u32) -> (r: Option<char>)
    ensures
        match r {
            Some(c) => c as u32 == n,
            None => !vstd::utf8::is_scalar(n),
        },
        vstd::utf8::is_scalar(n) ==> r is Some,
{
    char::from_u32(n)
}

#[verifier::loop_isolation(false)]
fn read_str(s: &[u8], i: usize) -> (r: Option<(String, usize)>)
    ensures
        match r {
            Some((t, j)) => dec_str(s@, i as int) == Some((t@, j as int)) && i < j <= s@.len(),
            None => dec_str(s@, i as int) is None,
        },
{
    match read_word(s, i) {
        None => None,
        Some((n, j0)) => {
            let mut t = String::new();
            let mut pos: usize = j0;
            let mut k: u64 = 0;
            while k < n
                invariant
                    0 <= k <= n,
                    i < pos <= s@.len(),
                    dec_chars(s@, j0 as int, k as nat) == Some((t@, pos as int)),
                decreases n - k,
            {
                match read_word(s, pos) {
                    None => {
                        proof {
                            assert(dec_chars(s@, j0 as int, k as nat + 1) is None);
                            lemma_dec_chars_mono_fail(s@, j0 as int, (k + 1) as nat, n as nat);
                        }
                        return None;
                    },
                    Some((w, p2)) => {
                        if w > 0x10FFFF {
                            proof {
                                assert(!valid_scalar(w));
                                assert(dec_chars(s@, j0 as int, k as nat + 1) is None);
                                lemma_dec_chars_mono_fail(s@, j0 as int, (k + 1) as nat, n as nat);
                            }
                            return None;
                        }
                        match char_from_u32(w as u32) {
                            None => {
                                proof {
                                    assert(!valid_scalar(w));
                                    assert(dec_chars(s@, j0 as int, k as nat + 1) is None);
                                    lemma_dec_chars_mono_fail(
                                        s@,
                                        j0 as int,
                                        (k + 1) as nat,
                                        n as nat,
                                    );
                                }
                                return None;
                            },
                            Some(c) => {
                                proof {
                                    vstd::utf8::char_is_scalar(c);
                                    assert(valid_scalar(w));
                                    vstd::utf8::char_u32_cast(c, c as u32);
                                    assert(char_of(w) == c);
                                }
                                push_char(&mut t, c);
                                pos = p2;
                            },
                        }
                    },
                }
                k = k + 1;
            }
            Some((t, pos))
        },
    }
}

fn read_int_type(s: &[u8], i: usize) -> (r: Option<(IntegerType, usize)>)
    ensures
        match r {
            Some((t, j)) => dec_int_type(s@, i as int) == Some((t, j as int)) && i < j
                <= s@.len(),
            None => dec_int_type(s@, i as int) is None,
        },
{
    match read_word(s, i) {
        None => None,
        Some((tag, j)) => {
            if tag == 0 {
                Some((IntegerType::I8, j))
            } else if tag == 1 {
                Some((IntegerType::I16, j))
            } else if tag == 2 {
                Some((IntegerType::I32, j))
            } else if tag == 3 {
                Some((IntegerType::I64, j))
            } else if tag == 4 {
                Some((IntegerType::U8, j))
            } else if tag == 5 {
                Some((IntegerType::U16, j))
            } else if tag == 6 {
                Some((IntegerType::U32, j))
            } else if tag == 7 {
                Some((IntegerType::U64, j))
            } else {
                None
            }
        },
    }
}

fn read_builtin(s: &[u8], i: usize) -> (r: Option<(BuiltinType, usize)>)
    ensures
        match r {
            Some((bt, j)) => dec_builtin(s@, i as int) == Some((bt, j as int)) && i < j
                <= s@.len(),
            None => dec_builtin(s@, i as int) is None,
        },
{
    match read_word(s, i) {
        None => None,
        Some((tag, j)) => match read_word(s, j) {
            None => None,
            Some((sub, k)) => {
                if tag == 0 {
                    if sub == 0 {
                        Some((BuiltinType::Integer(IntegerType::I8), k))
                    } else if sub == 1 {
                        Some((BuiltinType::Integer(IntegerType::I16), k))
                    } else if sub == 2 {
                        Some((BuiltinType::Integer(IntegerType::I32), k))
                    } else if sub == 3 {
                        Some((BuiltinType::Integer(IntegerType::I64), k))
                    } else if sub == 4 {
                        Some((BuiltinType::Integer(IntegerType::U8), k))
                    } else if sub == 5 {
                        Some((BuiltinType::Integer(IntegerType::U16), k))
                    } else if sub == 6 {
                        Some((BuiltinType::Integer(IntegerType::U32), k))
                    } else if sub == 7 {
                        Some((BuiltinType::Integer(IntegerType::U64), k))
                    } else {
                        None
                    }
                } else if tag == 1 && sub == 0 {
                    Some((BuiltinType::Float(FloatType::F32), k))
                } else if tag == 1 && sub == 1 {
                    Some((BuiltinType::Float(FloatType::F64), k))
                } else if tag == 2 && sub == 0 {
                    Some((BuiltinType::String, k))
                } else if tag == 3 && sub == 0 {
                    Some((BuiltinType::Bool, k))
                } else {
                    None
                }
            },
        },
    }
}

fn read_int_value(s: &[u8], i: usize) -> (r: Option<(IntegerValue, usize)>)
    ensures
        match r {
            Some((v, j)) => dec_int_value(s@, i as int) == Some((v, j as int)) && i < j
                <= s@.len(),
            None => dec_int_value(s@, i as int) is None,
        },
{
    match read_word(s, i) {
        None => None,
        Some((tag, j)) => {
            if tag <= 3 {
                match read_i64(s, j) {
                    None => None,
                    Some((n, k)) => {
                        if tag == 0 && -128 <= n && n <= 127 {
                            Some((IntegerValue::I8(n as i8), k))
                        } else if tag == 1 && -32768 <= n && n <= 32767 {
                            Some((IntegerValue::I16(n as i16), k))
                        } else if tag == 2 && -2147483648 <= n && n <= 2147483647 {
                            Some((IntegerValue::I32(n as i32), k))
                        } else if tag == 3 {
                            Some((IntegerValue::I64(n), k))
                        } else {
                            None
                        }
                    },
                }
            } else if tag <= 7 {
                match read_word(s, j) {
                    None => None,
                    Some((n, k)) => {
                        if tag == 4 && n <= 255 {
                            Some((IntegerValue::U8(n as u8), k))
                        } else if tag == 5 && n <= 65535 {
                            Some((IntegerValue::U16(n as u16), k))
                        } else if tag == 6 && n <= 4294967295 {
                            Some((IntegerValue::U32(n as u32), k))
                        } else if tag == 7 {
                            Some((IntegerValue::U64(n), k))
                        } else {
                            None
                        }
                    },
                }
            } else {
                None
            }
        },
    }
}

fn read_opt_len(s: &[u8], i: usize) -> (r: Option<(Option<usize>, usize)>)
    ensures
        match r {
            Some((l, j)) => dec_opt_len(s@, i as int) == Some((l, j as int)) && i < j
                <= s@.len(),
            None => dec_opt_len(s@, i as int) is None,
        },
{
    match read_word(s, i) {
        None => None,
        Some((p, j)) => {
            if p == 0 {
                Some((None, j))
            } else if p == 1 {
                match read_word(s, j) {
                    None => None,
                    Some((n, k)) => {
                        if n <= usize::MAX as u64 {
                            Some((Some(n as usize), k))
                        } else {
                            None
                        }
                    },
                }
            } else {
                None
            }
        },
    }
}

fn read_ft(s: &[u8], i: usize) -> (r: Option<(FieldType, usize)>)
    ensures
        match r {
            Some((ft, j)) => dec_ft(s@, i as int) == Some((ft@, j as int)) && i < j <= s@.len(),
            None => dec_ft(s@, i as int) is None,
        },
    decreases s@.len() - i,
{
    match read_word(s, i) {
        None => None,
        Some((tag, j1)) => match read_flag(s, j1) {
            None => None,
            Some((nullable, j2)) => {
                if tag == 0 {
                    match read_opt_len(s, j2) {
                        None => None,
                        Some((len, j3)) => match read_ft(s, j3) {
                            None => None,
                            Some((elem, j4)) => Some(
                                (FieldType::Array(Box::new(elem), len, nullable), j4),
                            ),
                        },
                    }
                } else if tag == 1 {
                    match read_builtin(s, j2) {
                        None => None,
                        Some((key, j3)) => match read_ft(s, j3) {
                            None => None,
                            Some((value, j4)) => Some(
                                (FieldType::Mapping(key, Box::new(value), nullable), j4),
                            ),
                        },
                    }
                } else if tag == 2 {
                    match read_builtin(s, j2) {
                        None => None,
                        Some((bt, j3)) => Some((FieldType::Builtin(bt, nullable), j3)),
                    }
                } else if tag == 3 {
                    match read_str(s, j2) {
                        None => None,
                        Some((name, j3)) => Some((FieldType::UserDefined(name, nullable), j3)),
                    }
                } else {
                    None
                }
            },
        },
    }
}

proof fn lemma_variants_view_push(
    vs: Seq<(String, Option<IntegerValue>)>,
    x: (String, Option<IntegerValue>),
)
    ensures
        variants_view(vs.push(x)) == variants_view(vs).push((x.0@, x.1)),
{
    assert forall|k: int| 0 <= k < vs.push(x).len() implies variants_view(vs.push(x))[k]
        == variants_view(vs).push((x.0@, x.1))[k] by {
        if k < vs.len() {
            assert(vs.push(x)[k] == vs[k]);
            assert(variants_view(vs)[k] == (vs[k].0@, vs[k].1));
        } else {
            assert(vs.push(x)[k] == x);
        }
    }
    assert(variants_view(vs.push(x)) =~= variants_view(vs).push((x.0@, x.1)));
}

proof fn lemma_fields_view_push(fs: Seq<(String, FieldType)>, x: (String, FieldType))
    ensures
        fields_view(fs.push(x)) == fields_view(fs).push((x.0@, x.1@)),
{
    assert forall|k: int| 0 <= k < fs.push(x).len() implies fields_view(fs.push(x))[k]
        == fields_view(fs).push((x.0@, x.1@))[k] by {
        if k < fs.len() {
            assert(fs.push(x)[k] == fs[k]);
            assert(fields_view(fs)[k] == (fs[k].0@, fs[k].1@));
        } else {
            assert(fs.push(x)[k] == x);
        }
    }
    assert(fields_view(fs.push(x)) =~= fields_view(fs).push((x.0@, x.1@)));
}

fn read_opt_val(s: &[u8], i: usize) -> (r: Option<(Option<IntegerValue>, usize)>)
    ensures
        match r {
            Some((v, j)) => dec_opt_val(s@, i as int) == Some((v, j as int)) && i < j
                <= s@.len(),
            None => dec_opt_val(s@, i as int) is None,
        },
{
    match read_word(s, i) {
        None => None,
        Some((p, j)) => {
            if p == 0 {
                Some((None, j))
            } else if p == 1 {
                match read_int_value(s, j) {
                    None => None,
                    Some((x, k)) => Some((Some(x), k)),
                }
            } else {
                None
            }
        },
    }
}

#[verifier::loop_isolation(false)]
fn read_variants(s: &[u8], i: usize, n: u64) -> (r: Option<
    (Vec<(String, Option<IntegerValue>)>, usize),
>)
    requires
        i <= s@.len(),
    ensures
        match r {
            Some((vs, j)) => dec_variants(s@, i as int, n as nat) == Some(
                (variants_view(vs@), j as int),
            ) && i <= j <= s@.len(),
            None => dec_variants(s@, i as int, n as nat) is None,
        },
{
    let mut acc: Vec<(String, Option<IntegerValue>)> = Vec::new();
    let mut pos: usize = i;
    let mut k: u64 = 0;
    proof {
        assert(variants_view(acc@) =~= Seq::<(Seq<char>, Option<IntegerValue>)>::empty());
    }
    while k < n
        invariant
            0 <= k <= n,
            i <= pos <= s@.len(),
            dec_variants(s@, i as int, k as nat) == Some((variants_view(acc@), pos as int)),
        decreases n - k,
    {
        let item = match read_str(s, pos) {
            None => None,
            Some((name, j1)) => match read_opt_val(s, j1) {
                None => None,
                Some((v, j2)) => Some(((name, v), j2)),
            },
        };
        match item {
            None => {
                proof {
                    assert(dec_variants(s@, i as int, k as nat + 1) is None);
                    lemma_dec_variants_mono_fail(s@, i as int, (k + 1) as nat, n as nat);
                }
                return None;
            },
            Some((x, j2)) => {
                let ghost pre = acc@;
                acc.push(x);
                proof {
                    assert(dec_variant(s@, pos as int) == Some(((x.0@, x.1), j2 as int)));
                    lemma_variants_view_push(pre, x);
                    assert(dec_variants(s@, i as int, k as nat + 1) == Some(
                        (variants_view(acc@), j2 as int),
                    ));
                }
                pos = j2;
            },
        }
        k = k + 1;
    }
    Some((acc, pos))
}

#[verifier::loop_isolation(false)]
fn read_fields(s: &[u8], i: usize, n: u64) -> (r: Option<(Vec<(String, FieldType)>, usize)>)
    requires
        i <= s@.len(),
    ensures
        match r {
            Some((fs, j)) => dec_fields(s@, i as int, n as nat) == Some(
                (fields_view(fs@), j as int),
            ) && i <= j <= s@.len(),
            None => dec_fields(s@, i as int, n as nat) is None,
        },
{
    let mut acc: Vec<(String, FieldType)> = Vec::new();
    let mut pos: usize = i;
    let mut k: u64 = 0;
    proof {
        assert(fields_view(acc@) =~= Seq::<(Seq<char>, FieldTypeView)>::empty());
    }
    while k < n
        invariant
            0 <= k <= n,
            i <= pos <= s@.len(),
            dec_fields(s@, i as int, k as nat) == Some((fields_view(acc@), pos as int)),
        decreases n - k,
    {
        let item = match read_str(s, pos) {
            None => None,
            Some((name, j1)) => match read_ft(s, j1) {
                None => None,
                Some((ft, j2)) => Some(((name, ft), j2)),
            },
        };
        match item {
            None => {
                proof {
                    assert(dec_fields(s@, i as int, k as nat + 1) is None);
                    lemma_dec_fields_mono_fail(s@, i as int, (k + 1) as nat, n as nat);
                }
                return None;
            },
            Some((x, j2)) => {
                let ghost pre = acc@;
                acc.push(x);
                proof {
                    assert(dec_field(s@, pos as int) == Some(((x.0@, x.1@), j2 as int)));
                    lemma_fields_view_push(pre, x);
                    assert(dec_fields(s@, i as int, k as nat + 1) == Some(
                        (fields_view(acc@), j2 as int),
                    ));
                }
                pos = j2;
            },
        }
        k = k + 1;
    }
    Some((acc, pos))
}

fn read_decl(s: &[u8], i: usize) -> (r: Option<(Declaration, usize)>)
    ensures
        match r {
            Some((d, j)) => dec_decl(s@, i as int) == Some((d@, j as int)) && i < j <= s@.len(),
            None => dec_decl(s@, i as int) is None,
        },
{
    match read_word(s, i) {
        None => None,
        Some((tag, j1)) => {
            if tag == 0 {
                match read_str(s, j1) {
                    None => None,
                    Some((ident, j2)) => match read_int_type(s, j2) {
                        None => None,
                        Some((base_type, j3)) => match read_word(s, j3) {
                            None => None,
                            Some((n, j4)) => match read_variants(s, j4, n) {
                                None => None,
                                Some((variants, j5)) => {
                                    let d = Declaration::Enum { ident, base_type, variants };
                                    proof {
                                        assert(dec_decl(s@, i as int) matches Some((dv, jj))
                                            && dv == d@ && jj == j5 as int);
                                    }
                                    Some((d, j5))
                                },
                            },
                        },
                    },
                }
            } else if tag == 1 {
                match read_str(s, j1) {
                    None => None,
                    Some((ident, j2)) => match read_word(s, j2) {
                        None => None,
                        Some((n, j3)) => match read_fields(s, j3, n) {
                            None => None,
                            Some((fields, j4)) => {
                                let d = Declaration::Struct { ident, fields };
                                proof {
                                    assert(dec_decl(s@, i as int) matches Some((dv, jj)) && dv
                                        == d@ && jj == j4 as int);
                                }
                                Some((d, j4))
                            },
                        },
                    },
                }
            } else {
                None
            }
        },
    }
}

fn read_meta_value(s: &[u8], i: usize) -> (r: Option<(MetadataValue, usize)>)
    ensures
        match r {
            Some((v, j)) => dec_meta_value(s@, i as int) == Some((v@, j as int)) && i < j
                <= s@.len(),
            None => dec_meta_value(s@, i as int) is None,
        },
{
    match read_word(s, i) {
        None => None,
        Some((tag, j)) => {
            if tag == 0 {
                match read_str(s, j) {
                    None => None,
                    Some((t, k)) => Some((MetadataValue::String(t), k)),
                }
            } else if tag == 1 {
                match read_int_value(s, j) {
                    None => None,
                    Some((x, k)) => Some((MetadataValue::Integer(x), k)),
                }
            } else {
                None
            }
        },
    }
}

proof fn lemma_meta_view_push(ms: Seq<(String, MetadataValue)>, x: (String, MetadataValue))
    ensures
        meta_view(ms.push(x)) == meta_view(ms).push((x.0@, x.1@)),
{
    assert forall|k: int| 0 <= k < ms.push(x).len() implies meta_view(ms.push(x))[k] == meta_view(
        ms,
    ).push((x.0@, x.1@))[k] by {
        if k < ms.len() {
            assert(ms.push(x)[k] == ms[k]);
            assert(meta_view(ms)[k] == (ms[k].0@, ms[k].1@));
        } else {
            assert(ms.push(x)[k] == x);
        }
    }
    assert(meta_view(ms.push(x)) =~= meta_view(ms).push((x.0@, x.1@)));
}

#[verifier::loop_isolation(false)]
fn read_meta(s: &[u8], i: usize, n: u64) -> (r: Option<(Vec<(String, MetadataValue)>, usize)>)
    requires
        i <= s@.len(),
    ensures
        match r {
            Some((ms, j)) => dec_meta(s@, i as int, n as nat) == Some(
                (meta_view(ms@), j as int),
            ) && i <= j <= s@.len(),
            None => dec_meta(s@, i as int, n as nat) is None,
        },
{
    let mut acc: Vec<(String, MetadataValue)> = Vec::new();
    let mut pos: usize = i;
    let mut k: u64 = 0;
    proof {
        assert(meta_view(acc@) =~= Seq::<(Seq<char>, MetadataValueView)>::empty());
    }
    while k < n
        invariant
            0 <= k <= n,
            i <= pos <= s@.len(),
            dec_meta(s@, i as int, k as nat) == Some((meta_view(acc@), pos as int)),
        decreases n - k,
    {
        let item = match read_str(s, pos) {
            None => None,
            Some((name, j1)) => match read_meta_value(s, j1) {
                None => None,
                Some((v, j2)) => Some(((name, v), j2)),
            },
        };
        match item {
            None => {
                proof {
                    assert(dec_meta(s@, i as int, k as nat + 1) is None);
                    lemma_dec_meta_mono_fail(s@, i as int, (k + 1) as nat, n as nat);
                }
                return None;
            },
            Some((x, j2)) => {
                let ghost pre = acc@;
                acc.push(x);
                proof {
                    assert(dec_meta_entry(s@, pos as int) == Some(((x.0@, x.1@), j2 as int)));
                    lemma_meta_view_push(pre, x);
                    assert(dec_meta(s@, i as int, k as nat + 1) == Some(
                        (meta_view(acc@), j2 as int),
                    ));
                }
                pos = j2;
            },
        }
        k = k + 1;
    }
    Some((acc, pos))
}

proof fn lemma_decls_view_push(ds: Seq<Declaration>, x: Declaration)
    ensures
        decls_view(ds.push(x)) == decls_view(ds).push(x@),
{
    assert forall|k: int| 0 <= k < ds.push(x).len() implies decls_view(ds.push(x))[k] == decls_view(
        ds,
    ).push(x@)[k] by {
        if k < ds.len() {
            assert(ds.push(x)[k] == ds[k]);
            assert(decls_view(ds)[k] == ds[k]@);
        } else {
            assert(ds.push(x)[k] == x);
        }
    }
    assert(decls_view(ds.push(x)) =~= decls_view(ds).push(x@));
}

#[verifier::loop_isolation(false)]
fn read_decls(s: &[u8], i: usize, n: u64) -> (r: Option<(Vec<Declaration>, usize)>)
    requires
        i <= s@.len(),
    ensures
        match r {
            Some((ds, j)) => dec_decls(s@, i as int, n as nat) == Some(
                (decls_view(ds@), j as int),
            ) && i <= j <= s@.len(),
            None => dec_decls(s@, i as int, n as nat) is None,
        },
{
    let mut acc: Vec<Declaration> = Vec::new();
    let mut pos: usize = i;
    let mut k: u64 = 0;
    proof {
        assert(decls_view(acc@) =~= Seq::<DeclarationView>::empty());
    }
    while k < n
        invariant
            0 <= k <= n,
            i <= pos <= s@.len(),
            dec_decls(s@, i as int, k as nat) == Some((decls_view(acc@), pos as int)),
        decreases n - k,
    {
        match read_decl(s, pos) {
            None => {
                proof {
                    assert(dec_decls(s@, i as int, k as nat + 1) is None);
                    lemma_dec_decls_mono_fail(s@, i as int, (k + 1) as nat, n as nat);
                }
                return None;
            },
            Some((d, j2)) => {
                let ghost pre = acc@;
                acc.push(d);
                proof {
                    lemma_decls_view_push(pre, acc@[pre.len() as int]);
                    assert(dec_decls(s@, i as int, k as nat + 1) == Some(
                        (decls_view(acc@), j2 as int),
                    ));
                }
                pos = j2;
            },
        }
        k = k + 1;
    }
    Some((acc, pos))
}

/// Decodes a schema from its intermediate binary form, consuming the
/// whole input; malformed or trailing bytes are rejected.
pub fn decode(bytes: &[u8]) -> (r: Option<Schema>)
    ensures
        match r {
            Some(schema) => {
                &&& dec_schema(bytes@, 0) matches Some((v, j))
                &&& schema@ == v
                &&& j == bytes@.len()
            },
            None => dec_schema(bytes@, 0) is None || dec_schema(bytes@, 0)->Some_0.1
                != bytes@.len(),
        },
{
    match read_word(bytes, 0) {
        None => None,
        Some((nm, j1)) => match read_meta(bytes, j1, nm) {
            None => None,
            Some((metadata, j2)) => match read_word(bytes, j2) {
                None => None,
                Some((nd, j3)) => match read_decls(bytes, j3, nd) {
                    None => None,
                    Some((declarations, j4)) => {
                        if j4 == bytes.len() {
                            let schema = Schema { metadata, declarations };
                            proof {
                                assert(schema@.metadata =~= meta_view(schema.metadata@));
                                assert(schema@.declarations =~= decls_view(
                                    schema.declarations@,
                                ));
                                assert(dec_schema(bytes@, 0) matches Some((v, j)) && schema@ == v
                                    && j == bytes@.len());
                            }
                            Some(schema)
                        } else {
                            None
                        }
                    },
                },
            },
        },
    }
}

} // verus!
