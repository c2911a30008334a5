//! The structural backend: emits native record/sum type declarations
//! with derive-style serialization attributes, one per schema
//! declaration, in source order.

use crate::ast::{
    fields_view, variants_view, BuiltinType, Declaration, DeclarationView, FieldType,
    FieldTypeView, FloatType, IntegerType, IntegerValue, Schema, SchemaView,
};
use crate::casing::{pascal_of, snake_of, to_pascal_case, to_snake_case};
use crate::text::{dec_digits, dec_int_str, i64_to_string, str_eq, u64_to_string, usize_to_string};
use vstd::prelude::*;
use vstd::string::*;

verus! {

/// The mathematical (unwrapped) value of an integer literal.
pub open spec fn integer_value_int(v: IntegerValue) -> int {
    match v {
        IntegerValue::I8(n) => n as int,
        IntegerValue::I16(n) => n as int,
        IntegerValue::I32(n) => n as int,
        IntegerValue::I64(n) => n as int,
        IntegerValue::U8(n) => n as int,
        IntegerValue::U16(n) => n as int,
        IntegerValue::U32(n) => n as int,
        IntegerValue::U64(n) => n as int,
    }
}

/// The target-language name of an integer type.
pub open spec fn integer_type_text(t: IntegerType) -> Seq<char> {
    match t {
        IntegerType::I8 => "i8"@,
        IntegerType::I16 => "i16"@,
        IntegerType::I32 => "i32"@,
        IntegerType::I64 => "i64"@,
        IntegerType::U8 => "u8"@,
        IntegerType::U16 => "u16"@,
        IntegerType::U32 => "u32"@,
        IntegerType::U64 => "u64"@,
    }
}

/// The target-language name of a builtin type.
pub open spec fn builtin_type_text(bt: BuiltinType) -> Seq<char> {
    match bt {
        BuiltinType::Integer(it) => integer_type_text(it),
        BuiltinType::Float(FloatType::F32) => "f32"@,
        BuiltinType::Float(FloatType::F64) => "f64"@,
        BuiltinType::String => "String"@,
        BuiltinType::Bool => "bool"@,
    }
}

/// Wraps a type name in `Option<...>` where the field is nullable.
pub open spec fn wrap_option_text(base: Seq<char>, nullable: bool) -> Seq<char> {
    if nullable {
        "Option<"@ + base + ">"@
    } else {
        base
    }
}

/// The target-language type expression for a field type.
pub open spec fn field_type_text(ft: FieldTypeView) -> Seq<char>
    decreases ft,
{
    match ft {
        FieldTypeView::Builtin(bt, nullable) => wrap_option_text(builtin_type_text(bt), nullable),
        FieldTypeView::UserDefined(name, nullable) => wrap_option_text(pascal_of(name), nullable),
        FieldTypeView::Array(elem, len, nullable) => {
            let inner = field_type_text(*elem);
            let base = match len {
                Some(l) => "["@ + inner + "; "@ + dec_digits(l as int) + "]"@,
                None => "Vec<"@ + inner + ">"@,
            };
            wrap_option_text(base, nullable)
        },
        FieldTypeView::Mapping(key, value, nullable) => wrap_option_text(
            "HashMap<"@ + builtin_type_text(key) + ", "@ + field_type_text(*value) + ">"@,
            nullable,
        ),
    }
}

/// The emitted lines for one enum variant: a rename attribute where the
/// casing transform changes the identifier, then the variant line with
/// its explicit value where one was declared.
pub open spec fn variant_text(v: (Seq<char>, Option<IntegerValue>)) -> Seq<char> {
    let rename = if pascal_of(v.0) != v.0 {
        "    #[serde(rename = \""@ + v.0 + "\")]\n"@
    } else {
        Seq::<char>::empty()
    };
    let line = match v.1 {
        Some(x) => "    "@ + pascal_of(v.0) + " = "@ + dec_int_str(integer_value_int(x)) + ",\n"@,
        None => "    "@ + pascal_of(v.0) + ",\n"@,
    };
    rename + line
}

/// The emitted lines for a sequence of enum variants, in order.
pub open spec fn variants_text(vs: Seq<(Seq<char>, Option<IntegerValue>)>) -> Seq<char>
    decreases vs.len(),
{
    if vs.len() == 0 {
        Seq::empty()
    } else {
        variants_text(vs.drop_last()) + variant_text(vs.last())
    }
}

/// The emitted text for one enum declaration.
pub open spec fn enum_text(
    ident: Seq<char>,
    base_type: IntegerType,
    variants: Seq<(Seq<char>, Option<IntegerValue>)>,
) -> Seq<char> {
    "#[derive(Debug, Clone, PartialEq, Serialize, Deserialize)]\n"@ + "#[repr("@
        + integer_type_text(base_type) + ")]\n"@ + "pub enum "@ + pascal_of(ident) + " {\n"@
        + variants_text(variants) + "}\n"@
}

/// The emitted lines for one struct field: a rename attribute where the
/// casing transform changes the identifier, then the field line.
pub open spec fn field_text(f: (Seq<char>, FieldTypeView)) -> Seq<char> {
    let rename = if snake_of(f.0) != f.0 {
        "    #[serde(rename = \""@ + f.0 + "\")]\n"@
    } else {
        Seq::<char>::empty()
    };
    rename + "    pub "@ + snake_of(f.0) + ": "@ + field_type_text(f.1) + ",\n"@
}

/// The emitted lines for a sequence of struct fields, in order.
pub open spec fn fields_text(fs: Seq<(Seq<char>, FieldTypeView)>) -> Seq<char>
    decreases fs.len(),
{
    if fs.len() == 0 {
        Seq::empty()
    } else {
        fields_text(fs.drop_last()) + field_text(fs.last())
    }
}

/// The emitted text for one struct declaration.
pub open spec fn struct_text(ident: Seq<char>, fields: Seq<(Seq<char>, FieldTypeView)>) -> Seq<
    char,
> {
    "#[derive(Debug, Clone, PartialEq, Serialize, Deserialize)]\n"@ + "pub struct "@ + pascal_of(
        ident,
    ) + " {\n"@ + fields_text(fields) + "}\n"@
}

/// The emitted text for one declaration, preceded by a blank line.
pub open spec fn decl_text(d: DeclarationView) -> Seq<char> {
    match d {
        DeclarationView::Enum { ident, base_type, variants } => "\n"@ + enum_text(
            ident,
            base_type,
            variants,
        ),
        DeclarationView::Struct { ident, fields } => "\n"@ + struct_text(ident, fields),
    }
}

/// The emitted text for a sequence of declarations, in order.
pub open spec fn decls_text(ds: Seq<DeclarationView>) -> Seq<char>
    decreases ds.len(),
{
    if ds.len() == 0 {
        Seq::empty()
    } else {
        decls_text(ds.drop_last()) + decl_text(ds.last())
    }
}

/// The whole emitted module for a schema: a fixed header, then one
/// type definition per declaration in source order.
pub open spec fn schema_text(s: SchemaView) -> Seq<char> {
    "#![allow(unused_imports)]\n"@ + "\n"@ + "use serde::{Deserialize, Serialize};\n"@
        + "use std::collections::HashMap;\n"@ + decls_text(s.declarations)
}

/// The target-language name of an integer type.
pub fn integer_type_str(t: &IntegerType) -> (r: &'static str)
    ensures
        r@ == integer_type_text(*t),
{
    match t {
        IntegerType::I8 => "i8",
        IntegerType::I16 => "i16",
        IntegerType::I32 => "i32",
        IntegerType::I64 => "i64",
        IntegerType::U8 => "u8",
        IntegerType::U16 => "u16",
        IntegerType::U32 => "u32",
        IntegerType::U64 => "u64",
    }
}

/// The decimal rendering of an integer literal's value.
pub fn integer_value_str(v: &IntegerValue) -> (r: String)
    ensures
        r@ == dec_int_str(integer_value_int(*v)),
{
    match v {
        IntegerValue::I8(n) => i64_to_string(*n as i64),
        IntegerValue::I16(n) => i64_to_string(*n as i64),
        IntegerValue::I32(n) => i64_to_string(*n as i64),
        IntegerValue::I64(n) => i64_to_string(*n),
        IntegerValue::U8(n) => u64_to_string(*n as u64),
        IntegerValue::U16(n) => u64_to_string(*n as u64),
        IntegerValue::U32(n) => u64_to_string(*n as u64),
        IntegerValue::U64(n) => u64_to_string(*n),
    }
}

/// The target-language name of a builtin type.
pub fn builtin_type_str(bt: &BuiltinType) -> (r: String)
    ensures
        r@ == builtin_type_text(*bt),
{
    match bt {
        BuiltinType::Integer(it) => String::from_str(integer_type_str(it)),
        BuiltinType::Float(FloatType::F32) => String::from_str("f32"),
        BuiltinType::Float(FloatType::F64) => String::from_str("f64"),
        BuiltinType::String => String::from_str("String"),
        BuiltinType::Bool => String::from_str("bool"),
    }
}

fn wrap_option(base: String, nullable: bool) -> (r: String)
    ensures
        r@ == wrap_option_text(base@, nullable),
{
    if nullable {
        let mut out = String::from_str("Option<");
        out.append(base.as_str());
        out.append(">");
        out
    } else {
        base
    }
}

/// The target-language type expression for a field type.
pub fn field_type_str(ft: &FieldType) -> (r: String)
    ensures
        r@ == field_type_text(ft@),
    decreases ft,
{
    match ft {
        FieldType::Builtin(bt, nullable) => wrap_option(builtin_type_str(bt), *nullable),
        FieldType::UserDefined(name, nullable) => wrap_option(
            to_pascal_case(name.as_str()),
            *nullable,
        ),
        FieldType::Array(elem, len, nullable) => {
            let inner = field_type_str(&*elem);
            let base = match len {
                Some(l) => {
                    let mut out = String::from_str("[");
                    out.append(inner.as_str());
                    out.append("; ");
                    let ls = usize_to_string(*l);
                    out.append(ls.as_str());
                    out.append("]");
                    out
                },
                None => {
                    let mut out = String::from_str("Vec<");
                    out.append(inner.as_str());
                    out.append(">");
                    out
                },
            };
            wrap_option(base, *nullable)
        },
        FieldType::Mapping(key, value, nullable) => {
            let mut out = String::from_str("HashMap<");
            let ks = builtin_type_str(key);
            out.append(ks.as_str());
            out.append(", ");
            let vs = field_type_str(&*value);
            out.append(vs.as_str());
            out.append(">");
            wrap_option(out, *nullable)
        },
    }
}

/// Emits one enum declaration.
#[verifier::loop_isolation(false)]
#[verifier::rlimit(30)]
pub fn generate_enum(
    out: &mut String,
    ident: &str,
    base_type: &IntegerType,
    variants: &[(String, Option<IntegerValue>)],
)
    ensures
        final(out)@ == old(out)@ + enum_text(ident@, *base_type, variants_view(variants@)),
{
    let ghost vs = variants_view(variants@);
    out.append("#[derive(Debug, Clone, PartialEq, Serialize, Deserialize)]\n");
    out.append("#[repr(");
    out.append(integer_type_str(base_type));
    out.append(")]\n");
    out.append("pub enum ");
    let pascal = to_pascal_case(ident);
    out.append(pascal.as_str());
    out.append(" {\n");
    let ghost header = old(out)@ + "#[derive(Debug, Clone, PartialEq, Serialize, Deserialize)]\n"@
        + "#[repr("@ + integer_type_text(*base_type) + ")]\n"@ + "pub enum "@ + pascal_of(ident@)
        + " {\n"@;
    proof {
        assert(out@ =~= header);
        assert(vs.take(0) =~= Seq::<(Seq<char>, Option<IntegerValue>)>::empty());
    }
    let n = variants.len();
    let mut i: usize = 0;
    while i < n
        invariant
            n == variants@.len(),
            0 <= i <= n,
            out@ == header + variants_text(vs.take(i as int)),
        decreases n - i,
    {
        let ghost pre = out@;
        let vname = &variants[i].0;
        proof {
            assert(vs[i as int] == (vname@, variants@[i as int].1));
        }
        let rust_variant = to_pascal_case(vname.as_str());
        if !str_eq(rust_variant.as_str(), vname.as_str()) {
            out.append("    #[serde(rename = \"");
            out.append(vname.as_str());
            out.append("\")]\n");
        }
        out.append("    ");
        out.append(rust_variant.as_str());
        match &variants[i].1 {
            Some(val) => {
                out.append(" = ");
                let vstr = integer_value_str(val);
                out.append(vstr.as_str());
                out.append(",\n");
            },
            None => {
                out.append(",\n");
            },
        }
        proof {
            assert(out@ =~= pre + variant_text(vs[i as int]));
            assert(vs.take(i as int + 1).drop_last() =~= vs.take(i as int));
            assert(vs.take(i as int + 1).last() == vs[i as int]);
            assert(out@ =~= header + variants_text(vs.take(i as int + 1)));
        }
        i += 1;
    }
    out.append("}\n");
    proof {
        assert(vs.take(n as int) =~= vs);
        assert(out@ =~= old(out)@ + enum_text(ident@, *base_type, vs));
    }
}

/// Emits one struct declaration.
#[verifier::loop_isolation(false)]
pub fn generate_struct(out: &mut String, ident: &str, fields: &[(String, FieldType)])
    ensures
        final(out)@ == old(out)@ + struct_text(ident@, fields_view(fields@)),
{
    let ghost fs = fields_view(fields@);
    out.append("#[derive(Debug, Clone, PartialEq, Serialize, Deserialize)]\n");
    out.append("pub struct ");
    let pascal = to_pascal_case(ident);
    out.append(pascal.as_str());
    out.append(" {\n");
    let ghost header = old(out)@ + "#[derive(Debug, Clone, PartialEq, Serialize, Deserialize)]\n"@
        + "pub struct "@ + pascal_of(ident@) + " {\n"@;
    proof {
        assert(out@ =~= header);
        assert(fs.take(0) =~= Seq::<(Seq<char>, FieldTypeView)>::empty());
    }
    let n = fields.len();
    let mut i: usize = 0;
    while i < n
        invariant
            n == fields@.len(),
            0 <= i <= n,
            out@ == header + fields_text(fs.take(i as int)),
        decreases n - i,
    {
        let ghost pre = out@;
        let fname = &fields[i].0;
        proof {
            assert(fs[i as int] == (fname@, fields@[i as int].1@));
        }
        let rust_field = to_snake_case(fname.as_str());
        if !str_eq(rust_field.as_str(), fname.as_str()) {
            out.append("    #[serde(rename = \"");
            out.append(fname.as_str());
            out.append("\")]\n");
        }
        out.append("    pub ");
        out.append(rust_field.as_str());
        out.append(": ");
        let tstr = field_type_str(&fields[i].1);
        out.append(tstr.as_str());
        out.append(",\n");
        proof {
            assert(out@ =~= pre + field_text(fs[i as int]));
            assert(fs.take(i as int + 1).drop_last() =~= fs.take(i as int));
            assert(fs.take(i as int + 1).last() == fs[i as int]);
            assert(out@ =~= header + fields_text(fs.take(i as int + 1)));
        }
        i += 1;
    }
    out.append("}\n");
    proof {
        assert(fs.take(n as int) =~= fs);
        assert(out@ =~= old(out)@ + struct_text(ident@, fs));
    }
}

/// Generates the whole module for a validated schema: a fixed header,
/// then one type definition per declaration in source order.  The
/// output is a function of the schema alone, so two runs on equal
/// schemas emit identical text.
#[verifier::loop_isolation(false)]
pub fn generate(schema: &Schema) -> (r: String)
    ensures
        r@ == schema_text(schema@),
{
    let ghost ds = schema@.declarations;
    let mut out = String::new();
    out.append("#![allow(unused_imports)]\n");
    out.append("\n");
    out.append("use serde::{Deserialize, Serialize};\n");
    out.append("use std::collections::HashMap;\n");
    let ghost header = "#![allow(unused_imports)]\n"@ + "\n"@
        + "use serde::{Deserialize, Serialize};\n"@ + "use std::collections::HashMap;\n"@;
    proof {
        assert(out@ =~= header);
        assert(ds.take(0) =~= Seq::<DeclarationView>::empty());
    }
    let n = schema.declarations.len();
    let mut i: usize = 0;
    while i < n
        invariant
            n == schema.declarations@.len(),
            0 <= i <= n,
            out@ == header + decls_text(ds.take(i as int)),
        decreases n - i,
    {
        let ghost pre = out@;
        proof {
            assert(ds[i as int] == schema.declarations@[i as int]@);
        }
        out.append("\n");
        match &schema.declarations[i] {
            Declaration::Enum { ident, base_type, variants } => {
                generate_enum(&mut out, ident.as_str(), base_type, variants.as_slice());
                proof {
                    assert(variants_view(variants@) =~= ds[i as int]->Enum_variants);
                }
            },
            Declaration::Struct { ident, fields } => {
                generate_struct(&mut out, ident.as_str(), fields.as_slice());
                proof {
                    assert(fields_view(fields@) =~= ds[i as int]->Struct_fields);
                }
            },
        }
        proof {
            assert(out@ =~= pre + decl_text(ds[i as int]));
            assert(ds.take(i as int + 1).drop_last() =~= ds.take(i as int));
            assert(ds.take(i as int + 1).last() == ds[i as int]);
            assert(out@ =~= header + decls_text(ds.take(i as int + 1)));
        }
        i += 1;
    }
    proof {
        assert(ds.take(n as int) =~= ds);
        assert(out@ =~= schema_text(schema@));
    }
    out
}

} // verus!
