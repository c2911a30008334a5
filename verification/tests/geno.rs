use geno::ast::{BuiltinType, Declaration, FieldType, IntegerType, IntegerValue, MetadataValue, Schema};
use geno::casing::{to_lower_camel_case, to_pascal_case, to_snake_case};
use geno::codec::{decode, encode};
use geno::{compile_explicit, compile_structural, GenoAstBuilder, GenoError};

const EXAMPLE: &str = r#"
meta { version = 1 }
enum color: u8 {
    red,
    green,
    blue,
}
struct point {
    x: i32,
    y: i32,
    label: color?,
    names: [ string ],
    tags: [ string ]?,
    fixed: [ u8; 4 ],
    scores: { string : i64 },
}
"#;

#[test]
fn happy_path() {
    let input = r#"
meta { version = 1 }
enum enum1: i16 {
    default = -1,
    apple = 1,
    orange = 2,
    kiwiFruit = 3,
    pear, // = 3 is inferred
}
// Another comment
struct type1 {
    alpha: i8,
    alpha_beta: u8,
    alphaBeta: i16,
    a4: u16,
    a5: i32,
    a6: u32,
    a7: i64,
    a8: u64,
    a9: f32,
    a10: f64,
    n1: i8?,
    n2: u8?,
    n3: i16?,
    n4: u16?,
    n5: i16?,
    n6: u16?,
    n7: i32?,
    n8: u32?,
    n9: i64?,
    n10: u64?,
    s1: string,
    s2: string?,
    b1: bool,
    b2: bool?,
    e1: enum1,
    e2: enum1?,
    r1: [ string ],
    r2: [ string ]?,
    r3: [ string; 10],
    m1: { string : f64 },
    m2: { string : string },
    m3: { string : bool },
    t1: type1,
};"#;
    let ast = GenoAstBuilder::new(String::from("example.geno"))
        .build(input)
        .unwrap();

    println!("{:?}", ast);
}

#[test]
fn parse_example_and_write_ast() {
    let schema = GenoAstBuilder::new(String::from("examples/example.geno"))
        .build(EXAMPLE)
        .unwrap();
    let ast_bytes = encode(&schema);
    assert!(!ast_bytes.is_empty());

    // Verify the AST deserializes back to a valid Schema
    let schema2: Schema = decode(&ast_bytes).unwrap();
    assert!(!schema2.declarations.is_empty());
    assert_eq!(schema, schema2);
}

#[test]
fn generate_rust_serde() {
    let stdout = compile_structural(EXAMPLE, "examples/example.geno").unwrap();
    assert!(stdout.contains("pub enum"));
    assert!(stdout.contains("pub struct"));
    assert!(stdout.contains("Serialize"));
    assert!(stdout.contains("Deserialize"));
}

#[test]
fn generate_dart_mp() {
    let stdout = compile_explicit(EXAMPLE, "examples/example.geno").unwrap();
    assert!(stdout.contains("enum "));
    assert!(stdout.contains("class "));
    assert!(stdout.contains("toBytes"));
    assert!(stdout.contains("fromBytes"));
    assert!(stdout.contains("import 'package:messagepack/messagepack.dart'"));
}

fn sample_schema() -> Schema {
    Schema {
        metadata: vec![
            (String::from("version"), MetadataValue::Integer(IntegerValue::I64(1))),
            (String::from("name"), MetadataValue::String(String::from("sample"))),
        ],
        declarations: vec![
            Declaration::Enum {
                ident: String::from("color"),
                base_type: IntegerType::U8,
                variants: vec![
                    (String::from("red"), None),
                    (String::from("green"), Some(IntegerValue::U8(7))),
                    (String::from("blue"), None),
                ],
            },
            Declaration::Struct {
                ident: String::from("point"),
                fields: vec![
                    (String::from("x"), FieldType::Builtin(BuiltinType::Integer(IntegerType::I32), false)),
                    (String::from("label"), FieldType::UserDefined(String::from("color"), true)),
                    (
                        String::from("names"),
                        FieldType::Array(
                            Box::new(FieldType::Builtin(BuiltinType::String, true)),
                            Some(3),
                            false,
                        ),
                    ),
                    (
                        String::from("scores"),
                        FieldType::Mapping(
                            BuiltinType::String,
                            Box::new(FieldType::Builtin(BuiltinType::Integer(IntegerType::I64), false)),
                            true,
                        ),
                    ),
                ],
            },
        ],
    }
}

#[test]
fn encode_decode_round_trip() {
    let schema = sample_schema();
    let bytes = encode(&schema);
    let back = decode(&bytes).unwrap();
    assert_eq!(schema, back);
}

#[test]
fn encode_is_deterministic() {
    let a = encode(&sample_schema());
    let b = encode(&sample_schema());
    assert_eq!(a, b);
}

#[test]
fn decode_rejects_malformed_bytes() {
    assert!(decode(&[1u8, 2, 3]).is_none());
    // trailing garbage after a valid encoding is rejected too
    let mut bytes = encode(&sample_schema());
    bytes.push(0);
    assert!(decode(&bytes).is_none());
}

#[test]
fn compile_is_deterministic() {
    let a = compile_structural(EXAMPLE, "a.geno").unwrap();
    let b = compile_structural(EXAMPLE, "a.geno").unwrap();
    assert_eq!(a, b);
    let c = compile_explicit(EXAMPLE, "a.geno").unwrap();
    let d = compile_explicit(EXAMPLE, "a.geno").unwrap();
    assert_eq!(c, d);
}

#[test]
fn duplicate_type_fails_validation() {
    let schema = Schema {
        metadata: vec![],
        declarations: vec![
            Declaration::Struct { ident: String::from("Foo"), fields: vec![] },
            Declaration::Struct { ident: String::from("Foo"), fields: vec![] },
        ],
    };
    let err = schema.validate().unwrap_err();
    assert_eq!(err, GenoError::DuplicateType(String::from("Foo")));
    assert_eq!(err.message(), "duplicate type 'Foo'");
}

#[test]
fn duplicate_field_fails_validation() {
    let schema = Schema {
        metadata: vec![],
        declarations: vec![Declaration::Struct {
            ident: String::from("s"),
            fields: vec![
                (String::from("x"), FieldType::Builtin(BuiltinType::Bool, false)),
                (String::from("x"), FieldType::Builtin(BuiltinType::Bool, false)),
            ],
        }],
    };
    let err = schema.validate().unwrap_err();
    assert_eq!(err, GenoError::DuplicateField(String::from("s"), String::from("x")));
    assert_eq!(err.message(), "duplicate field 'x' in struct 's'");
}

#[test]
fn duplicate_variant_fails_validation() {
    let schema = Schema {
        metadata: vec![],
        declarations: vec![Declaration::Enum {
            ident: String::from("e"),
            base_type: IntegerType::I32,
            variants: vec![(String::from("A"), None), (String::from("A"), None)],
        }],
    };
    let err = schema.validate().unwrap_err();
    assert_eq!(err, GenoError::DuplicateVariant(String::from("e"), String::from("A")));
    assert_eq!(err.message(), "duplicate variant 'A' in enum 'e'");
}

#[test]
fn undefined_reference_fails_validation() {
    let schema = Schema {
        metadata: vec![],
        declarations: vec![Declaration::Struct {
            ident: String::from("s"),
            fields: vec![(String::from("f"), FieldType::UserDefined(String::from("Bar"), false))],
        }],
    };
    let err = schema.validate().unwrap_err();
    assert_eq!(err, GenoError::UndefinedType(String::from("Bar")));
    assert_eq!(err.message(), "undefined type 'Bar'");
}

#[test]
fn undefined_reference_nested_in_array_and_map() {
    let nested_in_array = Schema {
        metadata: vec![],
        declarations: vec![Declaration::Struct {
            ident: String::from("s"),
            fields: vec![(
                String::from("f"),
                FieldType::Array(
                    Box::new(FieldType::UserDefined(String::from("Bar"), false)),
                    None,
                    false,
                ),
            )],
        }],
    };
    assert_eq!(
        nested_in_array.validate().unwrap_err(),
        GenoError::UndefinedType(String::from("Bar"))
    );
    let nested_in_map = Schema {
        metadata: vec![],
        declarations: vec![Declaration::Struct {
            ident: String::from("s"),
            fields: vec![(
                String::from("f"),
                FieldType::Mapping(
                    BuiltinType::String,
                    Box::new(FieldType::UserDefined(String::from("Bar"), false)),
                    false,
                ),
            )],
        }],
    };
    assert_eq!(
        nested_in_map.validate().unwrap_err(),
        GenoError::UndefinedType(String::from("Bar"))
    );
}

#[test]
fn forward_reference_is_allowed() {
    // the struct references a type declared only later in the schema
    let input = r#"
meta { version = 1 }
struct early {
    c: late,
}
enum late: u8 {
    a,
}
"#;
    let schema = GenoAstBuilder::new(String::from("f.geno")).build(input).unwrap();
    assert_eq!(schema.declarations.len(), 2);
}

#[test]
fn enum_discriminants_are_inferred() {
    let input = r#"
meta { version = 1 }
enum e {
    a,
    b = 5,
    c,
    d = 1,
    e,
}
"#;
    let out = compile_explicit(input, "e.geno").unwrap();
    assert!(out.contains("a(0),"));
    assert!(out.contains("b(5),"));
    assert!(out.contains("c(6),"));
    assert!(out.contains("d(1),"));
    assert!(out.contains("e(2);"));
}

#[test]
fn casing_transforms() {
    assert_eq!(to_pascal_case("alpha_beta"), "AlphaBeta");
    assert_eq!(to_pascal_case("alphaBeta"), "AlphaBeta");
    assert_eq!(to_pascal_case("type1"), "Type1");
    assert_eq!(to_pascal_case("kiwiFruit"), "KiwiFruit");
    assert_eq!(to_lower_camel_case("alphaBeta"), "alphaBeta");
    assert_eq!(to_lower_camel_case("alpha_beta"), "alphaBeta");
    assert_eq!(to_lower_camel_case("AlphaBeta"), "alphaBeta");
    assert_eq!(to_snake_case("alphaBeta"), "alpha_beta");
    assert_eq!(to_snake_case("alpha_beta"), "alpha_beta");
}

#[test]
fn nullable_array_differs_from_array_of_nullable() {
    let enum_names: Vec<String> = Vec::new();
    // nullable array of non-nullable string
    let nullable_array = FieldType::Array(
        Box::new(FieldType::Builtin(BuiltinType::String, false)),
        None,
        true,
    );
    // non-nullable array of nullable string
    let array_of_nullable = FieldType::Array(
        Box::new(FieldType::Builtin(BuiltinType::String, true)),
        None,
        false,
    );
    let mut pack_a = String::new();
    geno::backend_dart::generate_pack_field(&mut pack_a, "f", &nullable_array, "    ", &enum_names, 0);
    let mut pack_b = String::new();
    geno::backend_dart::generate_pack_field(&mut pack_b, "f", &array_of_nullable, "    ", &enum_names, 0);
    assert_ne!(pack_a, pack_b);
    // the nullable array writes a presence marker before its body
    assert!(pack_a.contains("p.packBool(true);"));
    assert!(!pack_b.contains("p.packBool(true);"));
    // the array of nullable strings null-checks each element instead
    assert!(pack_b.contains("if (e0 != null)"));
    let unpack_a = geno::backend_dart::generate_unpack_expr(&nullable_array, &enum_names);
    let unpack_b = geno::backend_dart::generate_unpack_expr(&array_of_nullable, &enum_names);
    assert_ne!(unpack_a, unpack_b);
    assert!(unpack_a.starts_with("u.unpackBool() == null ? null : "));
}

#[test]
fn end_to_end_explicit_backend() {
    let input = r#"
meta { version = 1 }
enum Color: u8 {
    red,
    green,
    blue,
}
struct Point {
    x: i32,
    y: i32,
    label: Color?,
}
"#;
    let out = compile_explicit(input, "p.geno").unwrap();
    assert!(out.contains("class Point {"));
    assert!(out.contains("red(0),"));
    assert!(out.contains("green(1),"));
    assert!(out.contains("blue(2);"));
    // the nullable enum field packs a null marker when absent and the
    // discriminant otherwise
    assert!(out.contains("if (label != null) {"));
    assert!(out.contains("label!._pack(p);"));
    assert!(out.contains("p.packNull();"));
    // and unpacks an absent-or-present value
    assert!(out.contains("final label = Color._unpackNullable(u);"));
}

#[test]
fn number_format_error() {
    let input = "meta { v = 0xZZ }";
    let err = GenoAstBuilder::new(String::from("n.geno")).build(input).unwrap_err();
    match &err {
        GenoError::NumberFormat { content, .. } => assert_eq!(content, "0xZZ"),
        other => panic!("unexpected error: {:?}", other),
    }
    assert!(err.message().starts_with("bad number format '0xZZ'"));
}

#[test]
fn number_range_error() {
    // one past the largest signed 64-bit value
    let input = "meta { v = 9223372036854775808 }";
    let err = GenoAstBuilder::new(String::from("n.geno")).build(input).unwrap_err();
    assert!(matches!(err, GenoError::NumberRange { .. }));
    // a negative array length is out of range for a size
    let input2 = r#"
meta { v = 1 }
struct s {
    f: [ u8; -4 ],
}
"#;
    let err2 = GenoAstBuilder::new(String::from("n.geno")).build(input2).unwrap_err();
    assert!(matches!(err2, GenoError::NumberRange { .. }));
}

#[test]
fn parse_error_reports_line_and_column() {
    let input = "meta { v = 1 }\n$%&";
    let err = GenoAstBuilder::new(String::from("p.geno")).build(input).unwrap_err();
    match err {
        GenoError::Parse { content, file, location } => {
            assert_eq!(content, "$%&");
            assert_eq!(file, "p.geno");
            assert_eq!(location.line, 2);
            assert_eq!(location.column, 1);
        },
        other => panic!("unexpected error: {:?}", other),
    }
}

#[test]
fn metadata_keeps_last_value_per_key() {
    let input = r#"meta { a = "x", a = 5, b = "y" }"#;
    let schema = GenoAstBuilder::new(String::from("m.geno")).build(input).unwrap();
    assert_eq!(schema.metadata.len(), 2);
    assert_eq!(schema.metadata[0].0, "a");
    assert_eq!(schema.metadata[0].1, MetadataValue::Integer(IntegerValue::I64(5)));
    assert_eq!(schema.metadata[1].0, "b");
    assert_eq!(schema.metadata[1].1, MetadataValue::String(String::from("y")));
}

#[test]
fn hex_and_binary_literals() {
    let input = "meta { a = 0xFFFFFFFFFFFFFFFF, b = 0b101, c = -7 }";
    let schema = GenoAstBuilder::new(String::from("m.geno")).build(input).unwrap();
    assert_eq!(schema.metadata[0].1, MetadataValue::Integer(IntegerValue::U64(u64::MAX)));
    assert_eq!(schema.metadata[1].1, MetadataValue::Integer(IntegerValue::U64(5)));
    assert_eq!(schema.metadata[2].1, MetadataValue::Integer(IntegerValue::I64(-7)));
}

#[test]
fn enum_base_type_defaults_to_i32() {
    let input = r#"
meta { v = 1 }
enum e {
    a,
}
"#;
    let schema = GenoAstBuilder::new(String::from("d.geno")).build(input).unwrap();
    match &schema.declarations[0] {
        Declaration::Enum { base_type, .. } => assert_eq!(*base_type, IntegerType::I32),
        other => panic!("unexpected declaration: {:?}", other),
    }
    let out = compile_structural(input, "d.geno").unwrap();
    assert!(out.contains("#[repr(i32)]"));
}

#[test]
fn structural_backend_renames_changed_identifiers() {
    let input = r#"
meta { v = 1 }
struct s {
    alphaBeta: i32,
    plain: bool,
}
"#;
    let out = compile_structural(input, "r.geno").unwrap();
    // the casing transform changes the name, so a wire-name override is emitted
    assert!(out.contains("#[serde(rename = \"alphaBeta\")]"));
    assert!(out.contains("pub alpha_beta: i32,"));
    // an unchanged name gets no override
    assert!(!out.contains("#[serde(rename = \"plain\")]"));
}

#[test]
fn structural_backend_exact_output() {
    let input = r#"
meta { v = 1 }
struct pair {
    x: i8,
    y: u64?,
}
"#;
    let out = compile_structural(input, "x.geno").unwrap();
    let expected = "#![allow(unused_imports)]\n\nuse serde::{Deserialize, Serialize};\nuse std::collections::HashMap;\n\n#[derive(Debug, Clone, PartialEq, Serialize, Deserialize)]\npub struct Pair {\n    pub x: i8,\n    pub y: Option<u64>,\n}\n";
    assert_eq!(out, expected);
}
