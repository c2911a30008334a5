//! The explicit backend: emits one class/type per declaration plus
//! hand-written pack/unpack methods implementing the binary protocol.
//!
//! Per-kind serialization contract, applied recursively to nested
//! array elements and map values:
//!
//! - Builtins write/read the primitive directly; a nullable builtin
//!   writes a null marker or the primitive, and reads a
//!   primitive-or-null.
//! - Enums write/read the integer discriminant; a nullable enum uses
//!   the format's native null like a builtin.
//! - Structs write/read field by field in declaration order; a
//!   nullable struct writes a boolean presence marker before its
//!   content, or a null marker.
//! - Arrays write a length then each element; maps write an entry
//!   count then each key and value; nullable arrays and maps use the
//!   presence marker like structs.
//!
//! Structs, arrays and maps need the explicit presence marker because
//! their non-null unpack path reads structured content immediately;
//! builtins and enums can rely on the format's native null value.

use crate::ast::{
    contains_name, fields_view, name_seq, variants_view, BuiltinType, Declaration,
    DeclarationView, FieldType, FieldTypeView, IntegerType, IntegerValue, Schema, SchemaView,
};
use crate::casing::{lower_camel_of, pascal_of, to_lower_camel_case, to_pascal_case};
use crate::text::{clone_string, dec_digits, dec_int_str, i64_to_string, usize_to_string};
use vstd::prelude::*;
use vstd::seq_lib::lemma_concat_associative;
use vstd::string::*;

verus! {

/// The value of an integer literal as a signed 64-bit number; an
/// unsigned 64-bit value above the signed maximum wraps around, as a
/// bit-pattern reinterpretation does.
pub open spec fn integer_value_i64(v: IntegerValue) -> int {
    match v {
        IntegerValue::I8(n) => n as int,
        IntegerValue::I16(n) => n as int,
        IntegerValue::I32(n) => n as int,
        IntegerValue::I64(n) => n as int,
        IntegerValue::U8(n) => n as int,
        IntegerValue::U16(n) => n as int,
        IntegerValue::U32(n) => n as int,
        IntegerValue::U64(n) => if n <= i64::MAX as u64 {
            n as int
        } else {
            n - 0x10000000000000000
        },
    }
}

/// The running discriminant counter after one value, wrapping as
/// 64-bit signed addition does.
pub open spec fn wrap_inc_i64(v: int) -> int {
    if v == i64::MAX as int {
        i64::MIN as int
    } else {
        v + 1
    }
}

/// One more nesting level, saturating at the machine limit.
pub open spec fn depth_inc(d: int) -> int {
    if d == usize::MAX as int {
        d
    } else {
        d + 1
    }
}

/// Whether a field type is nullable at its outermost constructor.
pub open spec fn ft_nullable(ft: FieldTypeView) -> bool {
    match ft {
        FieldTypeView::Builtin(_, nullable) => nullable,
        FieldTypeView::UserDefined(_, nullable) => nullable,
        FieldTypeView::Array(_, _, nullable) => nullable,
        FieldTypeView::Mapping(_, _, nullable) => nullable,
    }
}

/// The target-language name of a builtin type.
pub open spec fn builtin_type_text(bt: BuiltinType) -> Seq<char> {
    match bt {
        BuiltinType::Integer(_) => "int"@,
        BuiltinType::Float(_) => "double"@,
        BuiltinType::String => "String"@,
        BuiltinType::Bool => "bool"@,
    }
}

/// The packer method for a builtin type.
pub open spec fn builtin_pack_text(bt: BuiltinType) -> Seq<char> {
    match bt {
        BuiltinType::Integer(_) => "packInt"@,
        BuiltinType::Float(_) => "packDouble"@,
        BuiltinType::String => "packString"@,
        BuiltinType::Bool => "packBool"@,
    }
}

/// The unpacker method for a builtin type.
pub open spec fn builtin_unpack_text(bt: BuiltinType) -> Seq<char> {
    match bt {
        BuiltinType::Integer(_) => "unpackInt"@,
        BuiltinType::Float(_) => "unpackDouble"@,
        BuiltinType::String => "unpackString"@,
        BuiltinType::Bool => "unpackBool"@,
    }
}

/// The target-language type expression for a field type.
pub open spec fn field_type_text(ft: FieldTypeView) -> Seq<char>
    decreases ft,
{
    match ft {
        FieldTypeView::Builtin(bt, nullable) => {
            let base = builtin_type_text(bt);
            if nullable {
                base + "?"@
            } else {
                base
            }
        },
        FieldTypeView::UserDefined(name, nullable) => {
            let base = pascal_of(name);
            if nullable {
                base + "?"@
            } else {
                base
            }
        },
        FieldTypeView::Array(elem, _, nullable) => {
            let base = "List<"@ + field_type_text(*elem) + ">"@;
            if nullable {
                base + "?"@
            } else {
                base
            }
        },
        FieldTypeView::Mapping(key, value, nullable) => {
            let base = "Map<"@ + builtin_type_text(key) + ", "@ + field_type_text(*value) + ">"@;
            if nullable {
                base + "?"@
            } else {
                base
            }
        },
    }
}

/// The opening statements packing an array value: the presence marker
/// and length for a nullable array, or the length alone, then the
/// element loop header.
pub open spec fn pack_array_prefix_text(
    expr: Seq<char>,
    var: Seq<char>,
    nullable: bool,
    indent: Seq<char>,
) -> Seq<char> {
    if nullable {
        let src = expr + "!"@;
        indent + "if ("@ + expr + " != null) {\n"@ + indent + "  p.packBool(true);\n"@ + indent
            + "  p.packListLength("@ + src + ".length);\n"@ + indent + "  for (final "@ + var
            + " in "@ + src + ") {\n"@
    } else {
        indent + "p.packListLength("@ + expr + ".length);\n"@ + indent + "for (final "@ + var
            + " in "@ + expr + ") {\n"@
    }
}

/// The opening statements packing a map value: the presence marker and
/// entry count for a nullable map, or the count alone, then the entry
/// loop header and the key write.
pub open spec fn pack_map_prefix_text(
    expr: Seq<char>,
    var: Seq<char>,
    key_method: Seq<char>,
    nullable: bool,
    indent: Seq<char>,
) -> Seq<char> {
    if nullable {
        let src = expr + "!"@;
        indent + "if ("@ + expr + " != null) {\n"@ + indent + "  p.packBool(true);\n"@ + indent
            + "  p.packMapLength("@ + src + ".length);\n"@ + indent + "  for (final "@ + var
            + " in "@ + src + ".entries) {\n"@ + indent + "    p."@ + key_method + "("@ + var
            + ".key);\n"@
    } else {
        indent + "p.packMapLength("@ + expr + ".length);\n"@ + indent + "for (final "@ + var
            + " in "@ + expr + ".entries) {\n"@ + indent + "  p."@ + key_method + "("@ + var
            + ".key);\n"@
    }
}

/// The closing statements after a packed array or map body: the loop
/// close, and for a nullable value the null-marker branch.
pub open spec fn pack_close_text(nullable: bool, indent: Seq<char>) -> Seq<char> {
    if nullable {
        indent + "  }\n"@ + indent + "} else {\n"@ + indent + "  p.packNull();\n"@ + indent
            + "}\n"@
    } else {
        indent + "}\n"@
    }
}

/// The pack statements for one value of a field type, written at one
/// indentation level.  `expr` is the expression holding the value,
/// `enum_names` the identifiers declared as enums, and `depth` numbers
/// the loop variables of nested arrays and maps.
pub open spec fn pack_field_text(
    expr: Seq<char>,
    ft: FieldTypeView,
    indent: Seq<char>,
    enum_names: Seq<Seq<char>>,
    depth: int,
) -> Seq<char>
    decreases ft,
{
    match ft {
        FieldTypeView::Builtin(bt, nullable) => {
            let method = builtin_pack_text(bt);
            if nullable {
                indent + "if ("@ + expr + " != null) {\n"@ + indent + "  p."@ + method + "("@
                    + expr + "!);\n"@ + indent + "} else {\n"@ + indent + "  p.packNull();\n"@
                    + indent + "}\n"@
            } else {
                indent + "p."@ + method + "("@ + expr + ");\n"@
            }
        },
        FieldTypeView::UserDefined(name, nullable) => {
            let is_enum = enum_names.contains(name);
            if nullable {
                let marker = if !is_enum {
                    indent + "  p.packBool(true);\n"@
                } else {
                    Seq::<char>::empty()
                };
                indent + "if ("@ + expr + " != null) {\n"@ + marker + indent + "  "@ + expr
                    + "!._pack(p);\n"@ + indent + "} else {\n"@ + indent + "  p.packNull();\n"@
                    + indent + "}\n"@
            } else {
                indent + expr + "._pack(p);\n"@
            }
        },
        FieldTypeView::Array(inner, _, nullable) => {
            let var = "e"@ + dec_digits(depth);
            let deeper = if nullable {
                indent + "    "@
            } else {
                indent + "  "@
            };
            pack_array_prefix_text(expr, var, nullable, indent) + pack_field_text(
                var,
                *inner,
                deeper,
                enum_names,
                depth_inc(depth),
            ) + pack_close_text(nullable, indent)
        },
        FieldTypeView::Mapping(key, value, nullable) => {
            let var = "e"@ + dec_digits(depth);
            let deeper = if nullable {
                indent + "    "@
            } else {
                indent + "  "@
            };
            pack_map_prefix_text(expr, var, builtin_pack_text(key), nullable, indent)
                + pack_field_text(
                var + ".value"@,
                *value,
                deeper,
                enum_names,
                depth_inc(depth),
            ) + pack_close_text(nullable, indent)
        },
    }
}

/// The unpack expression for one value of a field type.
pub open spec fn unpack_expr_text(ft: FieldTypeView, enum_names: Seq<Seq<char>>) -> Seq<char>
    decreases ft,
{
    match ft {
        FieldTypeView::Builtin(bt, nullable) => {
            let method = builtin_unpack_text(bt);
            if nullable {
                "u."@ + method + "()"@
            } else {
                "u."@ + method + "()!"@
            }
        },
        FieldTypeView::UserDefined(name, nullable) => {
            if nullable {
                pascal_of(name) + "._unpackNullable(u)"@
            } else {
                pascal_of(name) + "._unpack(u)"@
            }
        },
        FieldTypeView::Array(inner, _, nullable) => {
            let base = "List.generate(u.unpackListLength(), (_) => "@ + unpack_expr_text(
                *inner,
                enum_names,
            ) + ")"@;
            if nullable {
                "u.unpackBool() == null ? null : "@ + base
            } else {
                base
            }
        },
        FieldTypeView::Mapping(key, value, nullable) => {
            let base = "Map.fromEntries(List.generate(u.unpackMapLength(), (_) => MapEntry(u."@
                + builtin_unpack_text(key) + "()!, "@ + unpack_expr_text(*value, enum_names)
                + ")))"@;
            if nullable {
                "u.unpackBool() == null ? null : "@ + base
            } else {
                base
            }
        },
    }
}

/// The enum's variant lines from position `i` on, with `next` the
/// running next-value counter: a variant with an explicit value emits
/// that value and sets the counter past it; a variant without one
/// emits the counter and increments it.
pub open spec fn variant_lines(
    vs: Seq<(Seq<char>, Option<IntegerValue>)>,
    i: int,
    next: int,
) -> Seq<char>
    decreases vs.len() - i,
{
    if i < 0 || i >= vs.len() {
        Seq::empty()
    } else {
        let actual = match vs[i].1 {
            Some(x) => integer_value_i64(x),
            None => next,
        };
        let next2 = wrap_inc_i64(actual);
        let trailing = if i < vs.len() - 1 {
            ","@
        } else {
            ";"@
        };
        "  "@ + lower_camel_of(vs[i].0) + "("@ + dec_int_str(actual) + ")"@ + trailing + "\n"@
            + variant_lines(vs, i + 1, next2)
    }
}

/// The value field, constructor and byte-level operations of an
/// emitted enum.
pub open spec fn enum_tail_head_text(pascal: Seq<char>) -> Seq<char> {
    "\n"@ + "  final int value;\n"@ + "  const "@ + pascal + "(this.value);\n"@ + "\n"@
        + "  Uint8List toBytes() {\n"@ + "    final p = Packer();\n"@ + "    _pack(p);\n"@
        + "    return p.takeBytes();\n"@ + "  }\n"@ + "\n"@ + "  static "@ + pascal
        + " fromBytes(Uint8List bytes) {\n"@ + "    return _unpack(Unpacker(bytes));\n"@
        + "  }\n"@
}

/// The pack and unpack operations of an emitted enum.
pub open spec fn enum_tail_ops_text(pascal: Seq<char>) -> Seq<char> {
    "\n"@ + "  void _pack(Packer p) {\n"@ + "    p.packInt(value);\n"@ + "  }\n"@ + "\n"@
        + "  static "@ + pascal + " _unpack(Unpacker u) {\n"@
        + "    return values.firstWhere((e) => e.value == u.unpackInt()!);\n"@ + "  }\n"@ + "\n"@
        + "  static "@ + pascal + "? _unpackNullable(Unpacker u) {\n"@
        + "    final v = u.unpackInt();\n"@
        + "    return v == null ? null : values.firstWhere((e) => e.value == v);\n"@ + "  }\n"@
        + "}\n"@
}

/// The fixed members of an emitted enum: the value field, the
/// constructor, and the pack/unpack operations.
pub open spec fn enum_tail_text(pascal: Seq<char>) -> Seq<char> {
    enum_tail_head_text(pascal) + enum_tail_ops_text(pascal)
}

/// The emitted text for one enum declaration.
pub open spec fn enum_text(
    ident: Seq<char>,
    variants: Seq<(Seq<char>, Option<IntegerValue>)>,
) -> Seq<char> {
    "enum "@ + pascal_of(ident) + " {\n"@ + variant_lines(variants, 0, 0) + enum_tail_text(
        pascal_of(ident),
    )
}

/// One field's declaration line within a class.
pub open spec fn field_decl_line(f: (Seq<char>, FieldTypeView)) -> Seq<char> {
    "  final "@ + field_type_text(f.1) + " "@ + lower_camel_of(f.0) + ";\n"@
}

/// The field declaration lines of a class, in order.
pub open spec fn field_decl_lines(fs: Seq<(Seq<char>, FieldTypeView)>) -> Seq<char>
    decreases fs.len(),
{
    if fs.len() == 0 {
        Seq::empty()
    } else {
        field_decl_lines(fs.drop_last()) + field_decl_line(fs.last())
    }
}

/// One field's constructor parameter line: nullable fields are
/// optional, all others required.
pub open spec fn ctor_line(f: (Seq<char>, FieldTypeView)) -> Seq<char> {
    if ft_nullable(f.1) {
        "    this."@ + lower_camel_of(f.0) + ",\n"@
    } else {
        "    required this."@ + lower_camel_of(f.0) + ",\n"@
    }
}

/// The constructor parameter lines, in order.
pub open spec fn ctor_lines(fs: Seq<(Seq<char>, FieldTypeView)>) -> Seq<char>
    decreases fs.len(),
{
    if fs.len() == 0 {
        Seq::empty()
    } else {
        ctor_lines(fs.drop_last()) + ctor_line(fs.last())
    }
}

/// The pack statements for all fields, in declaration order — the
/// wire order.
pub open spec fn pack_lines(
    fs: Seq<(Seq<char>, FieldTypeView)>,
    enum_names: Seq<Seq<char>>,
) -> Seq<char>
    decreases fs.len(),
{
    if fs.len() == 0 {
        Seq::empty()
    } else {
        pack_lines(fs.drop_last(), enum_names) + pack_field_text(
            lower_camel_of(fs.last().0),
            fs.last().1,
            "    "@,
            enum_names,
            0,
        )
    }
}

/// One field's unpack binding line.
pub open spec fn unpack_line(f: (Seq<char>, FieldTypeView), enum_names: Seq<Seq<char>>) -> Seq<
    char,
> {
    "    final "@ + lower_camel_of(f.0) + " = "@ + unpack_expr_text(f.1, enum_names) + ";\n"@
}

/// The unpack binding lines, in declaration order — the wire order.
pub open spec fn unpack_lines(
    fs: Seq<(Seq<char>, FieldTypeView)>,
    enum_names: Seq<Seq<char>>,
) -> Seq<char>
    decreases fs.len(),
{
    if fs.len() == 0 {
        Seq::empty()
    } else {
        unpack_lines(fs.drop_last(), enum_names) + unpack_line(fs.last(), enum_names)
    }
}

/// One field's constructor argument line in the unpack method.
pub open spec fn ctor_arg_line(f: (Seq<char>, FieldTypeView)) -> Seq<char> {
    "      "@ + lower_camel_of(f.0) + ": "@ + lower_camel_of(f.0) + ",\n"@
}

/// The constructor argument lines, in order.
pub open spec fn ctor_arg_lines(fs: Seq<(Seq<char>, FieldTypeView)>) -> Seq<char>
    decreases fs.len(),
{
    if fs.len() == 0 {
        Seq::empty()
    } else {
        ctor_arg_lines(fs.drop_last()) + ctor_arg_line(fs.last())
    }
}

/// The constructor opening of an emitted class.
pub open spec fn ctor_open_text(pascal: Seq<char>) -> Seq<char> {
    "\n"@ + "  "@ + pascal + "({\n"@
}

/// The fixed byte-level operations of an emitted class, up to the
/// opening of the pack method.
pub open spec fn bytes_ops_text(pascal: Seq<char>) -> Seq<char> {
    "  });\n"@ + "\n"@ + "  Uint8List toBytes() {\n"@ + "    final p = Packer();\n"@
        + "    _pack(p);\n"@ + "    return p.takeBytes();\n"@ + "  }\n"@ + "\n"@ + "  static "@
        + pascal + " fromBytes(Uint8List bytes) {\n"@ + "    return _unpack(Unpacker(bytes));\n"@
        + "  }\n"@ + "\n"@ + "  void _pack(Packer p) {\n"@
}

/// The opening of the unpack method of an emitted class.
pub open spec fn unpack_open_text(pascal: Seq<char>) -> Seq<char> {
    "  }\n"@ + "\n"@ + "  static "@ + pascal + " _unpack(Unpacker u) {\n"@
}

/// The closing of the unpack method and the nullable-unpack operation
/// that the presence-marker contract uses.
pub open spec fn unpack_close_text(pascal: Seq<char>) -> Seq<char> {
    "    return "@ + pascal + "(\n"@
}

/// The tail of an emitted class after the constructor arguments.
pub open spec fn struct_tail_text(pascal: Seq<char>) -> Seq<char> {
    "    );\n"@ + "  }\n"@ + "\n"@ + "  static "@ + pascal + "? _unpackNullable(Unpacker u) {\n"@
        + "    if (u.unpackBool() == null) return null;\n"@ + "    return _unpack(u);\n"@
        + "  }\n"@ + "}\n"@
}

/// The emitted text for one struct declaration.
pub open spec fn struct_text(
    ident: Seq<char>,
    fields: Seq<(Seq<char>, FieldTypeView)>,
    enum_names: Seq<Seq<char>>,
) -> Seq<char> {
    let pascal = pascal_of(ident);
    "class "@ + pascal + " {\n"@ + field_decl_lines(fields) + ctor_open_text(pascal) + ctor_lines(
        fields,
    ) + bytes_ops_text(pascal) + pack_lines(fields, enum_names) + unpack_open_text(pascal)
        + unpack_lines(fields, enum_names) + unpack_close_text(pascal) + ctor_arg_lines(fields)
        + struct_tail_text(pascal)
}

/// The identifiers of the enum declarations, in order.
pub open spec fn enum_idents(ds: Seq<DeclarationView>) -> Seq<Seq<char>>
    decreases ds.len(),
{
    if ds.len() == 0 {
        Seq::empty()
    } else {
        let rest = enum_idents(ds.drop_last());
        match ds.last() {
            DeclarationView::Enum { ident, .. } => rest.push(ident),
            DeclarationView::Struct { .. } => rest,
        }
    }
}

/// The emitted text for one declaration, preceded by a blank line.
pub open spec fn decl_text(d: DeclarationView, enum_names: Seq<Seq<char>>) -> Seq<char> {
    match d {
        DeclarationView::Enum { ident, variants, .. } => "\n"@ + enum_text(ident, variants),
        DeclarationView::Struct { ident, fields } => "\n"@ + struct_text(
            ident,
            fields,
            enum_names,
        ),
    }
}

/// The emitted text for a sequence of declarations, in order.
pub open spec fn decls_text(ds: Seq<DeclarationView>, enum_names: Seq<Seq<char>>) -> Seq<char>
    decreases ds.len(),
{
    if ds.len() == 0 {
        Seq::empty()
    } else {
        decls_text(ds.drop_last(), enum_names) + decl_text(ds.last(), enum_names)
    }
}

/// The whole emitted module for a schema: a fixed import header, then
/// one type per declaration in source order.
pub open spec fn schema_text(s: SchemaView) -> Seq<char> {
    "import 'dart:typed_data';\n"@ + "\n"@ + "import 'package:messagepack/messagepack.dart';\n"@
        + decls_text(s.declarations, enum_idents(s.declarations))
}

/// Whether a field type is nullable at its outermost constructor.
pub fn is_nullable(ft: &FieldType) -> (r: bool)
    ensures
        r == ft_nullable(ft@),
{
    match ft {
        FieldType::Builtin(_, nullable) => *nullable,
        FieldType::UserDefined(_, nullable) => *nullable,
        FieldType::Array(_, _, nullable) => *nullable,
        FieldType::Mapping(_, _, nullable) => *nullable,
    }
}

/// The packer method for a builtin type.
pub fn builtin_pack_method(bt: &BuiltinType) -> (r: &'static str)
    ensures
        r@ == builtin_pack_text(*bt),
{
    match bt {
        BuiltinType::Integer(_) => "packInt",
        BuiltinType::Float(_) => "packDouble",
        BuiltinType::String => "packString",
        BuiltinType::Bool => "packBool",
    }
}

/// The unpacker method for a builtin type.
pub fn builtin_unpack_method(bt: &BuiltinType) -> (r: &'static str)
    ensures
        r@ == builtin_unpack_text(*bt),
{
    match bt {
        BuiltinType::Integer(_) => "unpackInt",
        BuiltinType::Float(_) => "unpackDouble",
        BuiltinType::String => "unpackString",
        BuiltinType::Bool => "unpackBool",
    }
}

/// The value of an integer literal as a signed 64-bit number.
pub fn integer_value_to_i64(v: &IntegerValue) -> (r: i64)
    ensures
        r as int == integer_value_i64(*v),
{
    match v {
        IntegerValue::I8(n) => *n as i64,
        IntegerValue::I16(n) => *n as i64,
        IntegerValue::I32(n) => *n as i64,
        IntegerValue::I64(n) => *n,
        IntegerValue::U8(n) => *n as i64,
        IntegerValue::U16(n) => *n as i64,
        IntegerValue::U32(n) => *n as i64,
        IntegerValue::U64(n) => {
            if *n <= 0x7fffffffffffffff {
                *n as i64
            } else {
                let off: u64 = *n - 0x8000000000000000;
                i64::MIN + (off as i64)
            }
        },
    }
}

/// The target-language name of a builtin type.
pub fn builtin_type_str(bt: &BuiltinType) -> (r: String)
    ensures
        r@ == builtin_type_text(*bt),
{
    match bt {
        BuiltinType::Integer(_) => String::from_str("int"),
        BuiltinType::Float(_) => String::from_str("double"),
        BuiltinType::String => String::from_str("String"),
        BuiltinType::Bool => String::from_str("bool"),
    }
}

/// The target-language type expression for a field type.
pub fn field_type_str(ft: &FieldType) -> (r: String)
    ensures
        r@ == field_type_text(ft@),
    decreases ft,
{
    let mut base = match ft {
        FieldType::Builtin(bt, _) => builtin_type_str(bt),
        FieldType::UserDefined(name, _) => to_pascal_case(name.as_str()),
        FieldType::Array(inner, _, _) => {
            let mut out = String::from_str("List<");
            let is = field_type_str(&*inner);
            out.append(is.as_str());
            out.append(">");
            out
        },
        FieldType::Mapping(key, value, _) => {
            let mut out = String::from_str("Map<");
            let ks = builtin_type_str(key);
            out.append(ks.as_str());
            out.append(", ");
            let vs = field_type_str(&*value);
            out.append(vs.as_str());
            out.append(">");
            out
        },
    };
    if is_nullable(ft) {
        base.append("?");
        proof {
            assert(base@ =~= field_type_text(ft@));
        }
    }
    base
}

/// Emits the pack statements for one value of a field type.
#[verifier::rlimit(100)]
pub fn generate_pack_field(
    out: &mut String,
    expr: &str,
    ft: &FieldType,
    indent: &str,
    enum_names: &Vec<String>,
    depth: usize,
)
    ensures
        final(out)@ == old(out)@ + pack_field_text(
            expr@,
            ft@,
            indent@,
            name_seq(enum_names@),
            depth as int,
        ),
    decreases ft, 2int,
{
    let ghost enames = name_seq(enum_names@);
    match ft {
        FieldType::Builtin(bt, nullable) => {
            let method = builtin_pack_method(bt);
            if *nullable {
                out.append(indent);
                out.append("if (");
                out.append(expr);
                out.append(" != null) {\n");
                out.append(indent);
                out.append("  p.");
                out.append(method);
                out.append("(");
                out.append(expr);
                out.append("!);\n");
                out.append(indent);
                out.append("} else {\n");
                out.append(indent);
                out.append("  p.packNull();\n");
                out.append(indent);
                out.append("}\n");
            } else {
                out.append(indent);
                out.append("p.");
                out.append(method);
                out.append("(");
                out.append(expr);
                out.append(");\n");
            }
            proof {
                assert(out@ =~= old(out)@ + pack_field_text(
                    expr@,
                    ft@,
                    indent@,
                    enames,
                    depth as int,
                ));
            }
        },
        FieldType::UserDefined(name, nullable) => {
            let is_enum = contains_name(enum_names, name.as_str());
            if *nullable {
                out.append(indent);
                out.append("if (");
                out.append(expr);
                out.append(" != null) {\n");
                if !is_enum {
                    out.append(indent);
                    out.append("  p.packBool(true);\n");
                }
                out.append(indent);
                out.append("  ");
                out.append(expr);
                out.append("!._pack(p);\n");
                out.append(indent);
                out.append("} else {\n");
                out.append(indent);
                out.append("  p.packNull();\n");
                out.append(indent);
                out.append("}\n");
            } else {
                out.append(indent);
                out.append(expr);
                out.append("._pack(p);\n");
            }
            proof {
                assert(out@ =~= old(out)@ + pack_field_text(
                    expr@,
                    ft@,
                    indent@,
                    enames,
                    depth as int,
                ));
            }
        },
        FieldType::Array(..) => {
            pack_array_field(out, expr, ft, indent, enum_names, depth);
        },
        FieldType::Mapping(..) => {
            pack_mapping_field(out, expr, ft, indent, enum_names, depth);
        },
    }
}

/// Emits the statements opening a packed array value.
#[verifier::rlimit(100)]
fn emit_array_prefix(out: &mut String, expr: &str, src: &str, var: &str, nullable: bool, indent: &str)
    requires
        src@ == expr@ + "!"@,
    ensures
        final(out)@ == old(out)@ + pack_array_prefix_text(expr@, var@, nullable, indent@),
{
    if nullable {
        out.append(indent);
        out.append("if (");
        out.append(expr);
        out.append(" != null) {\n");
        out.append(indent);
        out.append("  p.packBool(true);\n");
        out.append(indent);
        out.append("  p.packListLength(");
        out.append(src);
        out.append(".length);\n");
        out.append(indent);
        out.append("  for (final ");
        out.append(var);
        out.append(" in ");
        out.append(src);
        out.append(") {\n");
    } else {
        out.append(indent);
        out.append("p.packListLength(");
        out.append(expr);
        out.append(".length);\n");
        out.append(indent);
        out.append("for (final ");
        out.append(var);
        out.append(" in ");
        out.append(expr);
        out.append(") {\n");
    }
    proof {
        assert(out@ =~= old(out)@ + pack_array_prefix_text(expr@, var@, nullable, indent@));
    }
}

/// Emits the statements opening a packed map value.
#[verifier::rlimit(100)]
fn emit_map_prefix(
    out: &mut String,
    expr: &str,
    src: &str,
    var: &str,
    key_method: &str,
    nullable: bool,
    indent: &str,
)
    requires
        src@ == expr@ + "!"@,
    ensures
        final(out)@ == old(out)@ + pack_map_prefix_text(
            expr@,
            var@,
            key_method@,
            nullable,
            indent@,
        ),
{
    if nullable {
        out.append(indent);
        out.append("if (");
        out.append(expr);
        out.append(" != null) {\n");
        out.append(indent);
        out.append("  p.packBool(true);\n");
        out.append(indent);
        out.append("  p.packMapLength(");
        out.append(src);
        out.append(".length);\n");
        out.append(indent);
        out.append("  for (final ");
        out.append(var);
        out.append(" in ");
        out.append(src);
        out.append(".entries) {\n");
        out.append(indent);
        out.append("    p.");
        out.append(key_method);
        out.append("(");
        out.append(var);
        out.append(".key);\n");
    } else {
        out.append(indent);
        out.append("p.packMapLength(");
        out.append(expr);
        out.append(".length);\n");
        out.append(indent);
        out.append("for (final ");
        out.append(var);
        out.append(" in ");
        out.append(expr);
        out.append(".entries) {\n");
        out.append(indent);
        out.append("  p.");
        out.append(key_method);
        out.append("(");
        out.append(var);
        out.append(".key);\n");
    }
    proof {
        assert(out@ =~= old(out)@ + pack_map_prefix_text(
            expr@,
            var@,
            key_method@,
            nullable,
            indent@,
        ));
    }
}

/// Emits the statements closing a packed array or map body.
#[verifier::rlimit(100)]
fn emit_pack_close(out: &mut String, nullable: bool, indent: &str)
    ensures
        final(out)@ == old(out)@ + pack_close_text(nullable, indent@),
{
    if nullable {
        out.append(indent);
        out.append("  }\n");
        out.append(indent);
        out.append("} else {\n");
        out.append(indent);
        out.append("  p.packNull();\n");
        out.append(indent);
        out.append("}\n");
    } else {
        out.append(indent);
        out.append("}\n");
    }
    proof {
        assert(out@ =~= old(out)@ + pack_close_text(nullable, indent@));
    }
}

/// Emits the pack statements for an array-typed value.
fn pack_array_field(
    out: &mut String,
    expr: &str,
    ft: &FieldType,
    indent: &str,
    enum_names: &Vec<String>,
    depth: usize,
)
    requires
        (*ft) matches FieldType::Array(..),
    ensures
        final(out)@ == old(out)@ + pack_field_text(
            expr@,
            ft@,
            indent@,
            name_seq(enum_names@),
            depth as int,
        ),
    decreases ft, 1int,
{
    let ghost enames = name_seq(enum_names@);
    if let FieldType::Array(inner, _, nullable) = ft {
        let mut var = String::from_str("e");
        let ds = usize_to_string(depth);
        var.append(ds.as_str());
        let depth2: usize = if depth == usize::MAX {
            depth
        } else {
            depth + 1
        };
        let mut src = clone_string(expr);
        src.append("!");
        let mut deeper = clone_string(indent);
        if *nullable {
            deeper.append("    ");
        } else {
            deeper.append("  ");
        }
        emit_array_prefix(out, expr, src.as_str(), var.as_str(), *nullable, indent);
        generate_pack_field(out, var.as_str(), &*inner, deeper.as_str(), enum_names, depth2);
        emit_pack_close(out, *nullable, indent);
        proof {
            assert(out@ == old(out)@ + pack_field_text(
                expr@,
                ft@,
                indent@,
                enames,
                depth as int,
            ));
        }
    }
}

/// Emits the pack statements for a map-typed value.
fn pack_mapping_field(
    out: &mut String,
    expr: &str,
    ft: &FieldType,
    indent: &str,
    enum_names: &Vec<String>,
    depth: usize,
)
    requires
        (*ft) matches FieldType::Mapping(..),
    ensures
        final(out)@ == old(out)@ + pack_field_text(
            expr@,
            ft@,
            indent@,
            name_seq(enum_names@),
            depth as int,
        ),
    decreases ft, 1int,
{
    let ghost enames = name_seq(enum_names@);
    if let FieldType::Mapping(key, value, nullable) = ft {
        let mut var = String::from_str("e");
        let ds = usize_to_string(depth);
        var.append(ds.as_str());
        let key_method = builtin_pack_method(key);
        let depth2: usize = if depth == usize::MAX {
            depth
        } else {
            depth + 1
        };
        let mut velem = clone_string(var.as_str());
        velem.append(".value");
        let mut src = clone_string(expr);
        src.append("!");
        let mut deeper = clone_string(indent);
        if *nullable {
            deeper.append("    ");
        } else {
            deeper.append("  ");
        }
        emit_map_prefix(out, expr, src.as_str(), var.as_str(), key_method, *nullable, indent);
        generate_pack_field(out, velem.as_str(), &*value, deeper.as_str(), enum_names, depth2);
        emit_pack_close(out, *nullable, indent);
        proof {
            assert(out@ == old(out)@ + pack_field_text(
                expr@,
                ft@,
                indent@,
                enames,
                depth as int,
            ));
        }
    }
}

/// The unpack expression for one value of a field type.
pub fn generate_unpack_expr(ft: &FieldType, enum_names: &Vec<String>) -> (r: String)
    ensures
        r@ == unpack_expr_text(ft@, name_seq(enum_names@)),
    decreases ft,
{
    match ft {
        FieldType::Builtin(bt, nullable) => {
            let mut out = String::from_str("u.");
            out.append(builtin_unpack_method(bt));
            if *nullable {
                out.append("()");
            } else {
                out.append("()!");
            }
            out
        },
        FieldType::UserDefined(name, nullable) => {
            let mut out = to_pascal_case(name.as_str());
            if *nullable {
                out.append("._unpackNullable(u)");
            } else {
                out.append("._unpack(u)");
            }
            out
        },
        FieldType::Array(inner, _, nullable) => {
            let mut out = String::new();
            if *nullable {
                out.append("u.unpackBool() == null ? null : ");
            }
            out.append("List.generate(u.unpackListLength(), (_) => ");
            let ie = generate_unpack_expr(&*inner, enum_names);
            out.append(ie.as_str());
            out.append(")");
            proof {
                assert(out@ =~= unpack_expr_text(ft@, name_seq(enum_names@)));
            }
            out
        },
        FieldType::Mapping(key, value, nullable) => {
            let mut out = String::new();
            if *nullable {
                out.append("u.unpackBool() == null ? null : ");
            }
            out.append("Map.fromEntries(List.generate(u.unpackMapLength(), (_) => MapEntry(u.");
            out.append(builtin_unpack_method(key));
            out.append("()!, ");
            let ve = generate_unpack_expr(&*value, enum_names);
            out.append(ve.as_str());
            out.append(")))");
            proof {
                assert(out@ =~= unpack_expr_text(ft@, name_seq(enum_names@)));
            }
            out
        },
    }
}

/// Emits the variant lines of one enum, inferring discriminants in
/// declaration order: an explicit value resets the running counter
/// past it, a variant without one takes the counter's value.
#[verifier::loop_isolation(false)]
#[verifier::rlimit(100)]
fn emit_enum_variants(out: &mut String, variants: &[(String, Option<IntegerValue>)])
    ensures
        final(out)@ == old(out)@ + variant_lines(variants_view(variants@), 0, 0),
{
    let ghost vs = variants_view(variants@);
    let m = variants.len();
    let mut next_value: i64 = 0;
    let mut i: usize = 0;
    while i < m
        invariant
            m == variants@.len(),
            0 <= i <= m,
            old(out)@ + variant_lines(vs, 0, 0) == out@ + variant_lines(
                vs,
                i as int,
                next_value as int,
            ),
        decreases m - i,
    {
        let ghost pre = out@;
        let ghost next_pre = next_value as int;
        let vname = &variants[i].0;
        proof {
            assert(vs[i as int] == (vname@, variants@[i as int].1));
        }
        let dart_variant = to_lower_camel_case(vname.as_str());
        let actual: i64 = match &variants[i].1 {
            Some(v) => integer_value_to_i64(v),
            None => next_value,
        };
        next_value = if actual == i64::MAX {
            i64::MIN
        } else {
            actual + 1
        };
        out.append("  ");
        out.append(dart_variant.as_str());
        out.append("(");
        let astr = i64_to_string(actual);
        out.append(astr.as_str());
        out.append(")");
        if i + 1 < m {
            out.append(",");
        } else {
            out.append(";");
        }
        out.append("\n");
        proof {
            let trailing: Seq<char> = if i + 1 < m {
                ","@
            } else {
                ";"@
            };
            assert(out@ =~= pre + ("  "@ + lower_camel_of(vname@) + "("@ + dec_int_str(
                actual as int,
            ) + ")"@ + trailing + "\n"@));
            assert(variant_lines(vs, i as int, next_pre) == ("  "@ + lower_camel_of(vname@) + "("@
                + dec_int_str(actual as int) + ")"@ + trailing + "\n"@) + variant_lines(
                vs,
                i as int + 1,
                next_value as int,
            ));
            assert(out@ + variant_lines(vs, i as int + 1, next_value as int) =~= pre
                + variant_lines(vs, i as int, next_pre));
        }
        i += 1;
    }
    proof {
        assert(variant_lines(vs, m as int, next_value as int) =~= Seq::<char>::empty());
        assert(out@ =~= out@ + variant_lines(vs, m as int, next_value as int));
    }
}

/// Emits the fixed members of one enum after its variant list.
#[verifier::rlimit(100)]
fn emit_enum_tail(out: &mut String, pascal: &str)
    ensures
        final(out)@ == old(out)@ + enum_tail_text(pascal@),
{
    out.append("\n");
    out.append("  final int value;\n");
    out.append("  const ");
    out.append(pascal);
    out.append("(this.value);\n");
    out.append("\n");
    out.append("  Uint8List toBytes() {\n");
    out.append("    final p = Packer();\n");
    out.append("    _pack(p);\n");
    out.append("    return p.takeBytes();\n");
    out.append("  }\n");
    out.append("\n");
    out.append("  static ");
    out.append(pascal);
    out.append(" fromBytes(Uint8List bytes) {\n");
    out.append("    return _unpack(Unpacker(bytes));\n");
    out.append("  }\n");
    proof {
        assert(out@ =~= old(out)@ + enum_tail_head_text(pascal@));
    }
    out.append("\n");
    out.append("  void _pack(Packer p) {\n");
    out.append("    p.packInt(value);\n");
    out.append("  }\n");
    out.append("\n");
    out.append("  static ");
    out.append(pascal);
    out.append(" _unpack(Unpacker u) {\n");
    out.append("    return values.firstWhere((e) => e.value == u.unpackInt()!);\n");
    out.append("  }\n");
    out.append("\n");
    out.append("  static ");
    out.append(pascal);
    out.append("? _unpackNullable(Unpacker u) {\n");
    out.append("    final v = u.unpackInt();\n");
    out.append("    return v == null ? null : values.firstWhere((e) => e.value == v);\n");
    out.append("  }\n");
    out.append("}\n");
    proof {
        assert(out@ =~= (old(out)@ + enum_tail_head_text(pascal@)) + enum_tail_ops_text(pascal@));
        lemma_concat_associative(old(out)@, enum_tail_head_text(pascal@), enum_tail_ops_text(pascal@));
    }
}

/// Emits one enum declaration.
pub fn generate_enum(
    out: &mut String,
    ident: &str,
    _base_type: &IntegerType,
    variants: &[(String, Option<IntegerValue>)],
)
    ensures
        final(out)@ == old(out)@ + enum_text(ident@, variants_view(variants@)),
{
    out.append("enum ");
    let pascal = to_pascal_case(ident);
    out.append(pascal.as_str());
    out.append(" {\n");
    emit_enum_variants(out, variants);
    emit_enum_tail(out, pascal.as_str());
    proof {
        assert(out@ =~= old(out)@ + enum_text(ident@, variants_view(variants@)));
    }
}

/// Emits the field declaration lines of one class.
#[verifier::loop_isolation(false)]
fn emit_field_decls(out: &mut String, fields: &[(String, FieldType)])
    ensures
        final(out)@ == old(out)@ + field_decl_lines(fields_view(fields@)),
{
    let ghost fs = fields_view(fields@);
    proof {
        assert(fs.take(0) =~= Seq::<(Seq<char>, FieldTypeView)>::empty());
    }
    let n = fields.len();
    let mut i: usize = 0;
    while i < n
        invariant
            n == fields@.len(),
            0 <= i <= n,
            out@ == old(out)@ + field_decl_lines(fs.take(i as int)),
        decreases n - i,
    {
        let ghost pre = out@;
        proof {
            assert(fs[i as int] == (fields@[i as int].0@, fields@[i as int].1@));
        }
        let dart_field = to_lower_camel_case(fields[i].0.as_str());
        out.append("  final ");
        let ts = field_type_str(&fields[i].1);
        out.append(ts.as_str());
        out.append(" ");
        out.append(dart_field.as_str());
        out.append(";\n");
        proof {
            assert(out@ =~= pre + field_decl_line(fs[i as int]));
            assert(fs.take(i as int + 1).drop_last() =~= fs.take(i as int));
            assert(out@ =~= old(out)@ + field_decl_lines(fs.take(i as int + 1)));
        }
        i += 1;
    }
    proof {
        assert(fs.take(n as int) =~= fs);
    }
}

/// Emits the constructor parameter lines of one class: nullable fields
/// optional, all others required.
#[verifier::loop_isolation(false)]
fn emit_ctor_params(out: &mut String, fields: &[(String, FieldType)])
    ensures
        final(out)@ == old(out)@ + ctor_lines(fields_view(fields@)),
{
    let ghost fs = fields_view(fields@);
    proof {
        assert(fs.take(0) =~= Seq::<(Seq<char>, FieldTypeView)>::empty());
    }
    let n = fields.len();
    let mut i: usize = 0;
    while i < n
        invariant
            n == fields@.len(),
            0 <= i <= n,
            out@ == old(out)@ + ctor_lines(fs.take(i as int)),
        decreases n - i,
    {
        let ghost pre = out@;
        proof {
            assert(fs[i as int] == (fields@[i as int].0@, fields@[i as int].1@));
        }
        let dart_field = to_lower_camel_case(fields[i].0.as_str());
        if is_nullable(&fields[i].1) {
            out.append("    this.");
            out.append(dart_field.as_str());
            out.append(",\n");
        } else {
            out.append("    required this.");
            out.append(dart_field.as_str());
            out.append(",\n");
        }
        proof {
            assert(out@ =~= pre + ctor_line(fs[i as int]));
            assert(fs.take(i as int + 1).drop_last() =~= fs.take(i as int));
            assert(out@ =~= old(out)@ + ctor_lines(fs.take(i as int + 1)));
        }
        i += 1;
    }
    proof {
        assert(fs.take(n as int) =~= fs);
    }
}

/// Emits the pack statements for every field, in declaration order —
/// the wire order.
#[verifier::loop_isolation(false)]
fn emit_pack_lines(out: &mut String, fields: &[(String, FieldType)], enum_names: &Vec<String>)
    ensures
        final(out)@ == old(out)@ + pack_lines(fields_view(fields@), name_seq(enum_names@)),
{
    let ghost fs = fields_view(fields@);
    let ghost enames = name_seq(enum_names@);
    proof {
        assert(fs.take(0) =~= Seq::<(Seq<char>, FieldTypeView)>::empty());
    }
    let n = fields.len();
    let mut i: usize = 0;
    while i < n
        invariant
            n == fields@.len(),
            0 <= i <= n,
            out@ == old(out)@ + pack_lines(fs.take(i as int), enames),
        decreases n - i,
    {
        let ghost pre = out@;
        proof {
            assert(fs[i as int] == (fields@[i as int].0@, fields@[i as int].1@));
        }
        let dart_field = to_lower_camel_case(fields[i].0.as_str());
        generate_pack_field(out, dart_field.as_str(), &fields[i].1, "    ", enum_names, 0);
        proof {
            assert(out@ =~= pre + pack_field_text(
                lower_camel_of(fs[i as int].0),
                fs[i as int].1,
                "    "@,
                enames,
                0,
            ));
            assert(fs.take(i as int + 1).drop_last() =~= fs.take(i as int));
            assert(out@ =~= old(out)@ + pack_lines(fs.take(i as int + 1), enames));
        }
        i += 1;
    }
    proof {
        assert(fs.take(n as int) =~= fs);
    }
}

/// Emits the unpack binding lines for every field, in declaration
/// order — the wire order.
#[verifier::loop_isolation(false)]
fn emit_unpack_lines(out: &mut String, fields: &[(String, FieldType)], enum_names: &Vec<String>)
    ensures
        final(out)@ == old(out)@ + unpack_lines(fields_view(fields@), name_seq(enum_names@)),
{
    let ghost fs = fields_view(fields@);
    let ghost enames = name_seq(enum_names@);
    proof {
        assert(fs.take(0) =~= Seq::<(Seq<char>, FieldTypeView)>::empty());
    }
    let n = fields.len();
    let mut i: usize = 0;
    while i < n
        invariant
            n == fields@.len(),
            0 <= i <= n,
            out@ == old(out)@ + unpack_lines(fs.take(i as int), enames),
        decreases n - i,
    {
        let ghost pre = out@;
        proof {
            assert(fs[i as int] == (fields@[i as int].0@, fields@[i as int].1@));
        }
        let dart_field = to_lower_camel_case(fields[i].0.as_str());
        out.append("    final ");
        out.append(dart_field.as_str());
        out.append(" = ");
        let ue = generate_unpack_expr(&fields[i].1, enum_names);
        out.append(ue.as_str());
        out.append(";\n");
        proof {
            assert(out@ =~= pre + unpack_line(fs[i as int], enames));
            assert(fs.take(i as int + 1).drop_last() =~= fs.take(i as int));
            assert(out@ =~= old(out)@ + unpack_lines(fs.take(i as int + 1), enames));
        }
        i += 1;
    }
    proof {
        assert(fs.take(n as int) =~= fs);
    }
}

/// Emits the constructor argument lines in the unpack method.
#[verifier::loop_isolation(false)]
fn emit_ctor_args(out: &mut String, fields: &[(String, FieldType)])
    ensures
        final(out)@ == old(out)@ + ctor_arg_lines(fields_view(fields@)),
{
    let ghost fs = fields_view(fields@);
    proof {
        assert(fs.take(0) =~= Seq::<(Seq<char>, FieldTypeView)>::empty());
    }
    let n = fields.len();
    let mut i: usize = 0;
    while i < n
        invariant
            n == fields@.len(),
            0 <= i <= n,
            out@ == old(out)@ + ctor_arg_lines(fs.take(i as int)),
        decreases n - i,
    {
        let ghost pre = out@;
        proof {
            assert(fs[i as int] == (fields@[i as int].0@, fields@[i as int].1@));
        }
        let dart_field = to_lower_camel_case(fields[i].0.as_str());
        out.append("      ");
        out.append(dart_field.as_str());
        out.append(": ");
        out.append(dart_field.as_str());
        out.append(",\n");
        proof {
            assert(out@ =~= pre + ctor_arg_line(fs[i as int]));
            assert(fs.take(i as int + 1).drop_last() =~= fs.take(i as int));
            assert(out@ =~= old(out)@ + ctor_arg_lines(fs.take(i as int + 1)));
        }
        i += 1;
    }
    proof {
        assert(fs.take(n as int) =~= fs);
    }
}

/// Emits the constructor opening of one class.
#[verifier::rlimit(50)]
fn emit_ctor_open(out: &mut String, pascal: &str)
    ensures
        final(out)@ == old(out)@ + ctor_open_text(pascal@),
{
    out.append("\n");
    out.append("  ");
    out.append(pascal);
    out.append("({\n");
    proof {
        assert(out@ =~= old(out)@ + ctor_open_text(pascal@));
    }
}

/// Emits the fixed byte-level operations of one class, up to the
/// opening of the pack method.
#[verifier::rlimit(100)]
fn emit_bytes_ops(out: &mut String, pascal: &str)
    ensures
        final(out)@ == old(out)@ + bytes_ops_text(pascal@),
{
    out.append("  });\n");
    out.append("\n");
    out.append("  Uint8List toBytes() {\n");
    out.append("    final p = Packer();\n");
    out.append("    _pack(p);\n");
    out.append("    return p.takeBytes();\n");
    out.append("  }\n");
    out.append("\n");
    out.append("  static ");
    out.append(pascal);
    out.append(" fromBytes(Uint8List bytes) {\n");
    out.append("    return _unpack(Unpacker(bytes));\n");
    out.append("  }\n");
    out.append("\n");
    out.append("  void _pack(Packer p) {\n");
    proof {
        assert(out@ =~= old(out)@ + bytes_ops_text(pascal@));
    }
}

/// Emits the opening of the unpack method of one class.
#[verifier::rlimit(50)]
fn emit_unpack_open(out: &mut String, pascal: &str)
    ensures
        final(out)@ == old(out)@ + unpack_open_text(pascal@),
{
    out.append("  }\n");
    out.append("\n");
    out.append("  static ");
    out.append(pascal);
    out.append(" _unpack(Unpacker u) {\n");
    proof {
        assert(out@ =~= old(out)@ + unpack_open_text(pascal@));
    }
}

/// Emits the return statement opening the constructed value.
#[verifier::rlimit(50)]
fn emit_unpack_close(out: &mut String, pascal: &str)
    ensures
        final(out)@ == old(out)@ + unpack_close_text(pascal@),
{
    out.append("    return ");
    out.append(pascal);
    out.append("(\n");
    proof {
        assert(out@ =~= old(out)@ + unpack_close_text(pascal@));
    }
}

/// Emits the tail of one class: the close of the unpack method and the
/// nullable-unpack operation that the presence-marker contract uses.
#[verifier::rlimit(100)]
fn emit_struct_tail(out: &mut String, pascal: &str)
    ensures
        final(out)@ == old(out)@ + struct_tail_text(pascal@),
{
    out.append("    );\n");
    out.append("  }\n");
    out.append("\n");
    out.append("  static ");
    out.append(pascal);
    out.append("? _unpackNullable(Unpacker u) {\n");
    out.append("    if (u.unpackBool() == null) return null;\n");
    out.append("    return _unpack(u);\n");
    out.append("  }\n");
    out.append("}\n");
    proof {
        assert(out@ =~= old(out)@ + struct_tail_text(pascal@));
    }
}

/// Emits one struct declaration: the class with its fields and
/// constructor, the byte-level operations, and the pack/unpack logic
/// for every field in declaration order — the wire order.
pub fn generate_struct(
    out: &mut String,
    ident: &str,
    fields: &[(String, FieldType)],
    enum_names: &Vec<String>,
)
    ensures
        final(out)@ == old(out)@ + struct_text(
            ident@,
            fields_view(fields@),
            name_seq(enum_names@),
        ),
{
    let ghost fs = fields_view(fields@);
    let ghost enames = name_seq(enum_names@);
    let ghost p = pascal_of(ident@);
    let pascal = to_pascal_case(ident);
    out.append("class ");
    out.append(pascal.as_str());
    out.append(" {\n");
    let ghost acc1 = "class "@ + p + " {\n"@;
    proof {
        lemma_concat_associative(old(out)@, "class "@, p);
        lemma_concat_associative(old(out)@, "class "@ + p, " {\n"@);
    }
    emit_field_decls(out, fields);
    let ghost acc2 = acc1 + field_decl_lines(fs);
    proof {
        lemma_concat_associative(old(out)@, acc1, field_decl_lines(fs));
    }
    emit_ctor_open(out, pascal.as_str());
    let ghost acc3 = acc2 + ctor_open_text(p);
    proof {
        lemma_concat_associative(old(out)@, acc2, ctor_open_text(p));
    }
    emit_ctor_params(out, fields);
    let ghost acc4 = acc3 + ctor_lines(fs);
    proof {
        lemma_concat_associative(old(out)@, acc3, ctor_lines(fs));
    }
    emit_bytes_ops(out, pascal.as_str());
    let ghost acc5 = acc4 + bytes_ops_text(p);
    proof {
        lemma_concat_associative(old(out)@, acc4, bytes_ops_text(p));
    }
    emit_pack_lines(out, fields, enum_names);
    let ghost acc6 = acc5 + pack_lines(fs, enames);
    proof {
        lemma_concat_associative(old(out)@, acc5, pack_lines(fs, enames));
    }
    emit_unpack_open(out, pascal.as_str());
    let ghost acc7 = acc6 + unpack_open_text(p);
    proof {
        lemma_concat_associative(old(out)@, acc6, unpack_open_text(p));
    }
    emit_unpack_lines(out, fields, enum_names);
    let ghost acc8 = acc7 + unpack_lines(fs, enames);
    proof {
        lemma_concat_associative(old(out)@, acc7, unpack_lines(fs, enames));
    }
    emit_unpack_close(out, pascal.as_str());
    let ghost acc9 = acc8 + unpack_close_text(p);
    proof {
        lemma_concat_associative(old(out)@, acc8, unpack_close_text(p));
    }
    emit_ctor_args(out, fields);
    let ghost acc10 = acc9 + ctor_arg_lines(fs);
    proof {
        lemma_concat_associative(old(out)@, acc9, ctor_arg_lines(fs));
    }
    emit_struct_tail(out, pascal.as_str());
    proof {
        lemma_concat_associative(old(out)@, acc10, struct_tail_text(p));
        assert(acc10 + struct_tail_text(p) == struct_text(ident@, fs, enames));
    }
}

/// Collects the identifiers declared as enums, in declaration order.
#[verifier::loop_isolation(false)]
fn collect_enum_names(schema: &Schema) -> (r: Vec<String>)
    ensures
        name_seq(r@) == enum_idents(schema@.declarations),
{
    let ghost ds = schema@.declarations;
    let mut enum_names: Vec<String> = Vec::new();
    let n = schema.declarations.len();
    let mut i: usize = 0;
    proof {
        assert(ds.take(0) =~= Seq::<DeclarationView>::empty());
        assert(name_seq(enum_names@) =~= enum_idents(ds.take(0)));
    }
    while i < n
        invariant
            n == schema.declarations@.len(),
            0 <= i <= n,
            name_seq(enum_names@) == enum_idents(ds.take(i as int)),
        decreases n - i,
    {
        proof {
            assert(ds[i as int] == schema.declarations@[i as int]@);
        }
        if let Declaration::Enum { ident, .. } = &schema.declarations[i] {
            let ghost pre = enum_names@;
            enum_names.push(clone_string(ident.as_str()));
            proof {
                assert forall|k: int| 0 <= k < enum_names@.len() implies name_seq(enum_names@)[k]
                    == enum_idents(ds.take(i as int)).push(ident@)[k] by {
                    if k < pre.len() {
                        assert(enum_names@[k] == pre[k]);
                        assert(name_seq(pre)[k] == pre[k]@);
                    }
                }
                assert(name_seq(enum_names@) =~= enum_idents(ds.take(i as int)).push(ident@));
                assert(ds.take(i as int + 1).drop_last() =~= ds.take(i as int));
                assert(name_seq(enum_names@) == enum_idents(ds.take(i as int + 1)));
            }
        } else {
            proof {
                assert(ds.take(i as int + 1).drop_last() =~= ds.take(i as int));
                assert(name_seq(enum_names@) == enum_idents(ds.take(i as int + 1)));
            }
        }
        i += 1;
    }
    proof {
        assert(ds.take(n as int) =~= ds);
    }
    enum_names
}

/// Generates the whole module for a validated schema: a fixed import
/// header, then one type per declaration in source order.  The output
/// is a function of the schema alone, so two runs on equal schemas
/// emit identical text.
#[verifier::loop_isolation(false)]
#[verifier::rlimit(100)]
pub fn generate(schema: &Schema) -> (r: String)
    ensures
        r@ == schema_text(schema@),
{
    let ghost ds = schema@.declarations;
    let enum_names = collect_enum_names(schema);
    let ghost enames = enum_idents(ds);
    let n = schema.declarations.len();
    let mut out = String::new();
    out.append("import 'dart:typed_data';\n");
    out.append("\n");
    out.append("import 'package:messagepack/messagepack.dart';\n");
    let ghost header = "import 'dart:typed_data';\n"@ + "\n"@
        + "import 'package:messagepack/messagepack.dart';\n"@;
    proof {
        assert(out@ =~= header);
        assert(ds.take(0) =~= Seq::<DeclarationView>::empty());
    }
    let mut j: usize = 0;
    while j < n
        invariant
            n == schema.declarations@.len(),
            0 <= j <= n,
            out@ == header + decls_text(ds.take(j as int), enames),
        decreases n - j,
    {
        let ghost pre = out@;
        proof {
            assert(ds[j as int] == schema.declarations@[j as int]@);
        }
        out.append("\n");
        match &schema.declarations[j] {
            Declaration::Enum { ident, base_type, variants } => {
                generate_enum(&mut out, ident.as_str(), base_type, variants.as_slice());
                proof {
                    assert(variants_view(variants@) =~= ds[j as int]->Enum_variants);
                }
            },
            Declaration::Struct { ident, fields } => {
                generate_struct(&mut out, ident.as_str(), fields.as_slice(), &enum_names);
                proof {
                    assert(fields_view(fields@) =~= ds[j as int]->Struct_fields);
                }
            },
        }
        proof {
            let d = ds[j as int];
            let body: Seq<char> = match d {
                DeclarationView::Enum { ident, variants, .. } => enum_text(ident, variants),
                DeclarationView::Struct { ident, fields } => struct_text(ident, fields, enames),
            };
            lemma_concat_associative(pre, "\n"@, body);
            assert(out@ == pre + decl_text(d, enames));
            assert(ds.take(j as int + 1).drop_last() =~= ds.take(j as int));
            lemma_concat_associative(
                header,
                decls_text(ds.take(j as int), enames),
                decl_text(d, enames),
            );
            assert(out@ == header + decls_text(ds.take(j as int + 1), enames));
        }
        j += 1;
    }
    proof {
        assert(ds.take(n as int) =~= ds);
        assert(out@ == schema_text(schema@));
    }
    out
}

/// A field of nullable array of non-nullable string and a field of
/// non-nullable array of nullable string generate distinct pack logic,
/// whatever the expression, indentation, enum set and nesting depth:
/// the first opens with a null check and presence marker, the second
/// writes its length directly.
pub proof fn lemma_nullable_array_pack_differs(
    expr: Seq<char>,
    indent: Seq<char>,
    enum_names: Seq<Seq<char>>,
    depth: int,
)
    ensures
        pack_field_text(
            expr,
            FieldTypeView::Array(
                Box::new(FieldTypeView::Builtin(BuiltinType::String, false)),
                None,
                true,
            ),
            indent,
            enum_names,
            depth,
        ) != pack_field_text(
            expr,
            FieldTypeView::Array(
                Box::new(FieldTypeView::Builtin(BuiltinType::String, true)),
                None,
                false,
            ),
            indent,
            enum_names,
            depth,
        ),
{
    let a = pack_field_text(
        expr,
        FieldTypeView::Array(
            Box::new(FieldTypeView::Builtin(BuiltinType::String, false)),
            None,
            true,
        ),
        indent,
        enum_names,
        depth,
    );
    let b = pack_field_text(
        expr,
        FieldTypeView::Array(
            Box::new(FieldTypeView::Builtin(BuiltinType::String, true)),
            None,
            false,
        ),
        indent,
        enum_names,
        depth,
    );
    reveal_strlit("if (");
    reveal_strlit("p.packListLength(");
    let i = indent.len() as int;
    if a == b {
        assert(a[i] == 'i');
        assert(b[i] == 'p');
        assert(false);
    }
}

} // verus!
