//! The abstract syntax tree of a schema, its mathematical model, and
//! the validator that checks the schema's global invariants.

use crate::error::{GenoError, GenoErrorView};
use crate::text::{clone_string, str_eq};
use vstd::prelude::*;

verus! {

/// Enum representing integer types.
#[derive(Debug, Clone, Copy, PartialEq, Eq, Structural)]
pub enum IntegerType {
    /// Signed 8-bit integer
    I8,
    /// Signed 16-bit integer
    I16,
    /// Signed 32-bit integer
    I32,
    /// Signed 64-bit integer
    I64,
    /// Unsigned 8-bit integer
    U8,
    /// Unsigned 16-bit integer
    U16,
    /// Unsigned 32-bit integer
    U32,
    /// Unsigned 64-bit integer
    U64,
}

/// Enum representing integer values.
#[derive(Debug, Clone, Copy, PartialEq, Eq, Structural)]
pub enum IntegerValue {
    /// Signed 8-bit integer value
    I8(i8),
    /// Signed 16-bit integer value
    I16(i16),
    /// Signed 32-bit integer value
    I32(i32),
    /// Signed 64-bit integer value
    I64(i64),
    /// Unsigned 8-bit integer value
    U8(u8),
    /// Unsigned 16-bit integer value
    U16(u16),
    /// Unsigned 32-bit integer value
    U32(u32),
    /// Unsigned 64-bit integer value
    U64(u64),
}

/// Enum representing float types.
#[derive(Debug, Clone, Copy, PartialEq, Eq, Structural)]
pub enum FloatType {
    /// 32-bit floating-point type
    F32,
    /// 64-bit floating-point type
    F64,
}

/// Enum representing all built-in types.
#[derive(Debug, Clone, Copy, PartialEq, Eq, Structural)]
pub enum BuiltinType {
    /// Integer types
    Integer(IntegerType),
    /// Float types
    Float(FloatType),
    /// String type
    String,
    /// Bool type
    Bool,
}

/// Enum representing all field types.  Nullability is a flag on the
/// outermost constructor only; it does not recurse automatically.
#[derive(Debug, PartialEq)]
pub enum FieldType {
    /// Array type: element type, optional fixed length, nullable flag
    Array(Box<FieldType>, Option<usize>, bool),
    /// Map type: builtin key type, value type, nullable flag
    Mapping(BuiltinType, Box<FieldType>, bool),
    /// Builtin type with nullable flag
    Builtin(BuiltinType, bool),
    /// User-defined type name with nullable flag
    UserDefined(String, bool),
}

/// Enum representing metadata values.
#[derive(Debug, Clone, PartialEq)]
pub enum MetadataValue {
    /// String value
    String(String),
    /// Integer value
    Integer(IntegerValue),
}

/// Enum representing declarations.
#[derive(Debug, PartialEq)]
pub enum Declaration {
    /// Enum declaration
    Enum {
        /// Enum identifier
        ident: String,
        /// Enum base integer type
        base_type: IntegerType,
        /// Enum variants in declaration order
        variants: Vec<(String, Option<IntegerValue>)>,
    },
    /// Struct declaration
    Struct {
        /// Struct identifier
        ident: String,
        /// Struct fields in declaration order
        fields: Vec<(String, FieldType)>,
    },
}

/// Schema declaration: the single root value of one source unit.
#[derive(Debug, PartialEq)]
pub struct Schema {
    /// Schema metadata entries in insertion order, keys unique
    pub metadata: Vec<(String, MetadataValue)>,
    /// Schema declarations in source order
    pub declarations: Vec<Declaration>,
}

/// Mathematical model of a field type.
pub enum FieldTypeView {
    /// Model of [`FieldType::Array`].
    Array(Box<FieldTypeView>, Option<usize>, bool),
    /// Model of [`FieldType::Mapping`].
    Mapping(BuiltinType, Box<FieldTypeView>, bool),
    /// Model of [`FieldType::Builtin`].
    Builtin(BuiltinType, bool),
    /// Model of [`FieldType::UserDefined`].
    UserDefined(Seq<char>, bool),
}

/// Mathematical model of a metadata value.
pub enum MetadataValueView {
    /// Model of [`MetadataValue::String`].
    String(Seq<char>),
    /// Model of [`MetadataValue::Integer`].
    Integer(IntegerValue),
}

/// Mathematical model of a declaration.
pub enum DeclarationView {
    /// Model of [`Declaration::Enum`].
    Enum { ident: Seq<char>, base_type: IntegerType, variants: Seq<(Seq<char>, Option<IntegerValue>)> },
    /// Model of [`Declaration::Struct`].
    Struct { ident: Seq<char>, fields: Seq<(Seq<char>, FieldTypeView)> },
}

/// Mathematical model of a schema.
pub struct SchemaView {
    /// Metadata entries in insertion order.
    pub metadata: Seq<(Seq<char>, MetadataValueView)>,
    /// Declarations in source order.
    pub declarations: Seq<DeclarationView>,
}

/// The model of a field type.
pub open spec fn field_type_view(t: FieldType) -> FieldTypeView
    decreases t,
{
    match t {
        FieldType::Array(elem, len, nullable) => FieldTypeView::Array(
            Box::new(field_type_view(*elem)),
            len,
            nullable,
        ),
        FieldType::Mapping(key, value, nullable) => FieldTypeView::Mapping(
            key,
            Box::new(field_type_view(*value)),
            nullable,
        ),
        FieldType::Builtin(b, nullable) => FieldTypeView::Builtin(b, nullable),
        FieldType::UserDefined(name, nullable) => FieldTypeView::UserDefined(name@, nullable),
    }
}

impl View for FieldType {
    type V = FieldTypeView;

    open spec fn view(&self) -> FieldTypeView {
        field_type_view(*self)
    }
}

impl View for MetadataValue {
    type V = MetadataValueView;

    open spec fn view(&self) -> MetadataValueView {
        match self {
            MetadataValue::String(s) => MetadataValueView::String(s@),
            MetadataValue::Integer(v) => MetadataValueView::Integer(*v),
        }
    }
}

impl View for Declaration {
    type V = DeclarationView;

    open spec fn view(&self) -> DeclarationView {
        match self {
            Declaration::Enum { ident, base_type, variants } => DeclarationView::Enum {
                ident: ident@,
                base_type: *base_type,
                variants: variants@.map_values(|v: (String, Option<IntegerValue>)| (v.0@, v.1)),
            },
            Declaration::Struct { ident, fields } => DeclarationView::Struct {
                ident: ident@,
                fields: fields@.map_values(|f: (String, FieldType)| (f.0@, f.1@)),
            },
        }
    }
}

impl View for Schema {
    type V = SchemaView;

    open spec fn view(&self) -> SchemaView {
        SchemaView {
            metadata: self.metadata@.map_values(|m: (String, MetadataValue)| (m.0@, m.1@)),
            declarations: self.declarations@.map_values(|d: Declaration| d@),
        }
    }
}

/// The model of a variant list.
pub open spec fn variants_view(vs: Seq<(String, Option<IntegerValue>)>) -> Seq<
    (Seq<char>, Option<IntegerValue>),
> {
    vs.map_values(|v: (String, Option<IntegerValue>)| (v.0@, v.1))
}

/// The model of a field list.
pub open spec fn fields_view(fs: Seq<(String, FieldType)>) -> Seq<(Seq<char>, FieldTypeView)> {
    fs.map_values(|f: (String, FieldType)| (f.0@, f.1@))
}

/// The model of a metadata entry list.
pub open spec fn meta_view(ms: Seq<(String, MetadataValue)>) -> Seq<
    (Seq<char>, MetadataValueView),
> {
    ms.map_values(|m: (String, MetadataValue)| (m.0@, m.1@))
}

/// The model of a declaration list.
pub open spec fn decls_view(ds: Seq<Declaration>) -> Seq<DeclarationView> {
    ds.map_values(|d: Declaration| d@)
}

/// The identifier a declaration declares.
pub open spec fn decl_ident(d: DeclarationView) -> Seq<char> {
    match d {
        DeclarationView::Enum { ident, .. } => ident,
        DeclarationView::Struct { ident, .. } => ident,
    }
}

/// The identifiers of a sequence of declarations, in order.
pub open spec fn decl_idents(decls: Seq<DeclarationView>) -> Seq<Seq<char>> {
    decls.map_values(|d: DeclarationView| decl_ident(d))
}

/// The member (variant or field) names of one declaration, in order.
pub open spec fn member_names(d: DeclarationView) -> Seq<Seq<char>> {
    match d {
        DeclarationView::Enum { variants, .. } => variants.map_values(
            |v: (Seq<char>, Option<IntegerValue>)| v.0,
        ),
        DeclarationView::Struct { fields, .. } => fields.map_values(
            |f: (Seq<char>, FieldTypeView)| f.0,
        ),
    }
}

/// True when a declaration is an enum.
pub open spec fn is_enum_decl(d: DeclarationView) -> bool {
    d is Enum
}

/// The first duplicated member name of `names` at position `i` or
/// later, reported as the matching error for the owning declaration.
pub open spec fn first_dup_member(
    owner: Seq<char>,
    is_enum: bool,
    names: Seq<Seq<char>>,
    i: int,
) -> Option<GenoErrorView>
    decreases names.len() - i,
{
    if i < 0 || i >= names.len() {
        None
    } else if names.take(i).contains(names[i]) {
        if is_enum {
            Some(GenoErrorView::DuplicateVariant(owner, names[i]))
        } else {
            Some(GenoErrorView::DuplicateField(owner, names[i]))
        }
    } else {
        first_dup_member(owner, is_enum, names, i + 1)
    }
}

/// The first duplicate-member error of one declaration, if any.
pub open spec fn decl_member_error(d: DeclarationView) -> Option<GenoErrorView> {
    first_dup_member(decl_ident(d), is_enum_decl(d), member_names(d), 0)
}

/// The first error of the validator's first pass at declaration `i` or
/// later: a declaration identifier already declared earlier, or a
/// duplicated member name within one declaration, in declaration order.
pub open spec fn pass1_error(decls: Seq<DeclarationView>, i: int) -> Option<GenoErrorView>
    decreases decls.len() - i,
{
    if i < 0 || i >= decls.len() {
        None
    } else if decl_idents(decls.take(i)).contains(decl_ident(decls[i])) {
        Some(GenoErrorView::DuplicateType(decl_ident(decls[i])))
    } else {
        match decl_member_error(decls[i]) {
            Some(e) => Some(e),
            None => pass1_error(decls, i + 1),
        }
    }
}

/// The first user-defined type name within one field type that is not
/// among `names`, walking depth-first into array elements and map
/// values.
pub open spec fn ft_undefined(ft: FieldTypeView, names: Seq<Seq<char>>) -> Option<Seq<char>>
    decreases ft,
{
    match ft {
        FieldTypeView::UserDefined(n, _) => if names.contains(n) {
            None
        } else {
            Some(n)
        },
        FieldTypeView::Array(elem, _, _) => ft_undefined(*elem, names),
        FieldTypeView::Mapping(_, value, _) => ft_undefined(*value, names),
        FieldTypeView::Builtin(_, _) => None,
    }
}

/// The first unresolved reference among a struct's fields at position
/// `j` or later.
pub open spec fn fields_undefined(
    fields: Seq<(Seq<char>, FieldTypeView)>,
    names: Seq<Seq<char>>,
    j: int,
) -> Option<Seq<char>>
    decreases fields.len() - j,
{
    if j < 0 || j >= fields.len() {
        None
    } else {
        match ft_undefined(fields[j].1, names) {
            Some(n) => Some(n),
            None => fields_undefined(fields, names, j + 1),
        }
    }
}

/// The first error of the validator's second pass at declaration `i`
/// or later: an unresolved user-defined type reference, in
/// field/declaration order, checked against the full identifier set.
pub open spec fn pass2_error(
    decls: Seq<DeclarationView>,
    names: Seq<Seq<char>>,
    i: int,
) -> Option<GenoErrorView>
    decreases decls.len() - i,
{
    if i < 0 || i >= decls.len() {
        None
    } else {
        let head = match decls[i] {
            DeclarationView::Struct { fields, .. } => fields_undefined(fields, names, 0),
            DeclarationView::Enum { .. } => None,
        };
        match head {
            Some(n) => Some(GenoErrorView::UndefinedType(n)),
            None => pass2_error(decls, names, i + 1),
        }
    }
}

/// The validator's result on a schema: the first error in declaration
/// order, or nothing when the schema is valid.
pub open spec fn validate_spec(s: SchemaView) -> Option<GenoErrorView> {
    match pass1_error(s.declarations, 0) {
        Some(e) => Some(e),
        None => pass2_error(s.declarations, decl_idents(s.declarations), 0),
    }
}

/// The model of a vector of names.
pub open spec fn name_seq(names: Seq<String>) -> Seq<Seq<char>> {
    names.map_values(|s: String| s@)
}

proof fn lemma_name_seq_push(names: Seq<String>, x: String)
    ensures
        name_seq(names.push(x)) == name_seq(names).push(x@),
{
    assert forall|k: int| 0 <= k < names.push(x).len() implies name_seq(names.push(x))[k]
        == name_seq(names).push(x@)[k] by {
        if k < names.len() {
            assert(names.push(x)[k] == names[k]);
            assert(name_seq(names)[k] == names[k]@);
        } else {
            assert(names.push(x)[k] == x);
        }
    }
    assert(name_seq(names.push(x)) =~= name_seq(names).push(x@));
}

proof fn lemma_decl_idents_take_push(decls: Seq<DeclarationView>, i: int)
    requires
        0 <= i < decls.len(),
    ensures
        decl_idents(decls.take(i + 1)) == decl_idents(decls.take(i)).push(decl_ident(decls[i])),
{
    assert forall|k: int| 0 <= k < i + 1 implies decl_idents(decls.take(i + 1))[k] == decl_idents(
        decls.take(i),
    ).push(decl_ident(decls[i]))[k] by {
        assert(decl_idents(decls.take(i + 1))[k] == decl_ident(decls.take(i + 1)[k]));
        if k < i {
            assert(decl_idents(decls.take(i))[k] == decl_ident(decls.take(i)[k]));
        }
    }
    assert(decl_idents(decls.take(i + 1)) =~= decl_idents(decls.take(i)).push(
        decl_ident(decls[i]),
    ));
}

/// Linear search of a name among collected names.
pub fn contains_name(names: &Vec<String>, target: &str) -> (r: bool)
    ensures
        r == name_seq(names@).contains(target@),
{
    let mut k: usize = 0;
    while k < names.len()
        invariant
            0 <= k <= names@.len(),
            forall|j: int| 0 <= j < k ==> names@[j]@ != target@,
        decreases names@.len() - k,
    {
        if str_eq(names[k].as_str(), target) {
            proof {
                assert(name_seq(names@)[k as int] == target@);
            }
            return true;
        }
        k += 1;
    }
    proof {
        assert forall|j: int| 0 <= j < name_seq(names@).len() implies name_seq(names@)[j]
            != target@ by {
            assert(name_seq(names@)[j] == names@[j]@);
        }
    }
    false
}

impl Schema {
    /// Validate the schema: first pass over declarations in order,
    /// failing on the first duplicate type name or duplicate
    /// field/variant name; second pass over struct fields, failing on
    /// the first user-defined type reference that names no declaration.
    #[verifier::loop_isolation(false)]
    pub fn validate(&self) -> (r: Result<(), GenoError>)
        ensures
            match r {
                Ok(()) => validate_spec(self@) is None,
                Err(e) => validate_spec(self@) == Some(e@),
            },
    {
        let ghost decls = self@.declarations;
        let mut type_names: Vec<String> = Vec::new();
        let n = self.declarations.len();
        let mut i: usize = 0;
        while i < n
            invariant
                n == self.declarations@.len(),
                decls == self@.declarations,
                0 <= i <= n,
                name_seq(type_names@) == decl_idents(decls.take(i as int)),
                pass1_error(decls, 0) == pass1_error(decls, i as int),
            decreases n - i,
        {
            let ghost dv = decls[i as int];
            proof {
                assert(decls[i as int] == self.declarations@[i as int]@);
            }
            match &self.declarations[i] {
                Declaration::Enum { ident, variants, .. } => {
                    let ghost mems = member_names(dv);
                    proof {
                        assert(decl_ident(dv) == ident@);
                        assert(mems.len() == variants@.len());
                        assert forall|k: int| 0 <= k < variants@.len() implies mems[k]
                            == variants@[k].0@ by {
                            assert(dv->Enum_variants[k] == (variants@[k].0@, variants@[k].1));
                        }
                    }
                    if contains_name(&type_names, ident.as_str()) {
                        return Err(GenoError::DuplicateType(clone_string(ident.as_str())));
                    }
                    let mut seen: Vec<String> = Vec::new();
                    let m = variants.len();
                    let mut j: usize = 0;
                    proof {
                        assert(name_seq(seen@) =~= mems.take(0));
                    }
                    while j < m
                        invariant
                            m == variants@.len(),
                            mems == member_names(dv),
                            mems.len() == m,
                            forall|k: int| 0 <= k < m ==> mems[k] == variants@[k].0@,
                            decl_ident(dv) == ident@,
                            is_enum_decl(dv),
                            0 <= j <= m,
                            name_seq(seen@) == mems.take(j as int),
                            first_dup_member(ident@, true, mems, 0) == first_dup_member(
                                ident@,
                                true,
                                mems,
                                j as int,
                            ),
                        decreases m - j,
                    {
                        let vname = &variants[j].0;
                        proof {
                            assert(mems[j as int] == vname@);
                        }
                        if contains_name(&seen, vname.as_str()) {
                            proof {
                                assert(mems.take(j as int).contains(mems[j as int]));
                                assert(first_dup_member(ident@, true, mems, j as int) == Some(
                                    GenoErrorView::DuplicateVariant(ident@, vname@),
                                ));
                                assert(pass1_error(decls, i as int) == Some(
                                    GenoErrorView::DuplicateVariant(ident@, vname@),
                                ));
                            }
                            return Err(GenoError::DuplicateVariant(
                                clone_string(ident.as_str()),
                                clone_string(vname.as_str()),
                            ));
                        }
                        let ghost seen_pre = seen@;
                        seen.push(clone_string(vname.as_str()));
                        proof {
                            lemma_name_seq_push(seen_pre, seen@[seen_pre.len() as int]);
                            assert(mems.take(j as int + 1) =~= mems.take(j as int).push(
                                mems[j as int],
                            ));
                            assert(name_seq(seen@) == mems.take(j as int + 1));
                        }
                        j += 1;
                    }
                    proof {
                        assert(mems.take(m as int) =~= mems);
                        assert(decl_member_error(dv) is None);
                    }
                    let ghost names_pre = type_names@;
                    type_names.push(clone_string(ident.as_str()));
                    proof {
                        lemma_name_seq_push(names_pre, type_names@[names_pre.len() as int]);
                        lemma_decl_idents_take_push(decls, i as int);
                        assert(name_seq(type_names@) == decl_idents(decls.take(i as int + 1)));
                        assert(pass1_error(decls, i as int) == pass1_error(decls, i as int + 1));
                    }
                },
                Declaration::Struct { ident, fields } => {
                    let ghost mems = member_names(dv);
                    proof {
                        assert(decl_ident(dv) == ident@);
                        assert(mems.len() == fields@.len());
                        assert forall|k: int| 0 <= k < fields@.len() implies mems[k]
                            == fields@[k].0@ by {
                            assert(dv->Struct_fields[k] == (fields@[k].0@, fields@[k].1@));
                        }
                    }
                    if contains_name(&type_names, ident.as_str()) {
                        return Err(GenoError::DuplicateType(clone_string(ident.as_str())));
                    }
                    let mut seen: Vec<String> = Vec::new();
                    let m = fields.len();
                    let mut j: usize = 0;
                    proof {
                        assert(name_seq(seen@) =~= mems.take(0));
                    }
                    while j < m
                        invariant
                            m == fields@.len(),
                            mems == member_names(dv),
                            mems.len() == m,
                            forall|k: int| 0 <= k < m ==> mems[k] == fields@[k].0@,
                            decl_ident(dv) == ident@,
                            !is_enum_decl(dv),
                            0 <= j <= m,
                            name_seq(seen@) == mems.take(j as int),
                            first_dup_member(ident@, false, mems, 0) == first_dup_member(
                                ident@,
                                false,
                                mems,
                                j as int,
                            ),
                        decreases m - j,
                    {
                        let fname = &fields[j].0;
                        proof {
                            assert(mems[j as int] == fname@);
                        }
                        if contains_name(&seen, fname.as_str()) {
                            proof {
                                assert(mems.take(j as int).contains(mems[j as int]));
                                assert(first_dup_member(ident@, false, mems, j as int) == Some(
                                    GenoErrorView::DuplicateField(ident@, fname@),
                                ));
                                assert(pass1_error(decls, i as int) == Some(
                                    GenoErrorView::DuplicateField(ident@, fname@),
                                ));
                            }
                            return Err(GenoError::DuplicateField(
                                clone_string(ident.as_str()),
                                clone_string(fname.as_str()),
                            ));
                        }
                        let ghost seen_pre = seen@;
                        seen.push(clone_string(fname.as_str()));
                        proof {
                            lemma_name_seq_push(seen_pre, seen@[seen_pre.len() as int]);
                            assert(mems.take(j as int + 1) =~= mems.take(j as int).push(
                                mems[j as int],
                            ));
                            assert(name_seq(seen@) == mems.take(j as int + 1));
                        }
                        j += 1;
                    }
                    proof {
                        assert(mems.take(m as int) =~= mems);
                        assert(decl_member_error(dv) is None);
                    }
                    let ghost names_pre = type_names@;
                    type_names.push(clone_string(ident.as_str()));
                    proof {
                        lemma_name_seq_push(names_pre, type_names@[names_pre.len() as int]);
                        lemma_decl_idents_take_push(decls, i as int);
                        assert(name_seq(type_names@) == decl_idents(decls.take(i as int + 1)));
                        assert(pass1_error(decls, i as int) == pass1_error(decls, i as int + 1));
                    }
                },
            }
            i += 1;
        }
        proof {
            assert(decls.take(n as int) =~= decls);
            assert(pass1_error(decls, 0) is None);
        }
        let ghost all_names = decl_idents(decls);
        let mut i2: usize = 0;
        while i2 < n
            invariant
                n == self.declarations@.len(),
                decls == self@.declarations,
                name_seq(type_names@) == all_names,
                all_names == decl_idents(decls),
                pass1_error(decls, 0) is None,
                0 <= i2 <= n,
                pass2_error(decls, all_names, 0) == pass2_error(decls, all_names, i2 as int),
            decreases n - i2,
        {
            let ghost dv = decls[i2 as int];
            proof {
                assert(decls[i2 as int] == self.declarations@[i2 as int]@);
            }
            if let Declaration::Struct { ident, fields } = &self.declarations[i2] {
                let ghost fv = dv->Struct_fields;
                proof {
                    assert(fv.len() == fields@.len());
                    assert forall|k: int| 0 <= k < fields@.len() implies fv[k] == (
                        fields@[k].0@,
                        fields@[k].1@,
                    ) by {}
                }
                let m = fields.len();
                let mut j: usize = 0;
                while j < m
                    invariant
                        m == fields@.len(),
                        fv.len() == m,
                        forall|k: int| 0 <= k < m ==> fv[k] == (fields@[k].0@, fields@[k].1@),
                        name_seq(type_names@) == all_names,
                        dv == decls[i2 as int],
                        dv matches DeclarationView::Struct { fields: dfs, .. } && dfs == fv,
                        0 <= i2 < n,
                        n == self.declarations@.len(),
                        decls == self@.declarations,
                        all_names == decl_idents(decls),
                        pass1_error(decls, 0) is None,
                        pass2_error(decls, all_names, 0) == pass2_error(decls, all_names, i2 as int),
                        0 <= j <= m,
                        fields_undefined(fv, all_names, 0) == fields_undefined(
                            fv,
                            all_names,
                            j as int,
                        ),
                    decreases m - j,
                {
                    match self.check_undefined_types(&fields[j].1, &type_names) {
                        Ok(()) => {
                            proof {
                                assert(fv[j as int].1 == fields@[j as int].1@);
                                assert(fields_undefined(fv, all_names, j as int)
                                    == fields_undefined(fv, all_names, j as int + 1));
                            }
                        },
                        Err(e) => {
                            proof {
                                assert(fv[j as int].1 == fields@[j as int].1@);
                                assert(fields_undefined(fv, all_names, 0) matches Some(nm)
                                    && e@ == GenoErrorView::UndefinedType(nm));
                                assert(pass2_error(decls, all_names, i2 as int) == Some(e@));
                            }
                            return Err(e);
                        },
                    }
                    j += 1;
                }
                proof {
                    assert(fields_undefined(fv, all_names, 0) is None);
                    assert(pass2_error(decls, all_names, i2 as int) == pass2_error(
                        decls,
                        all_names,
                        i2 as int + 1,
                    ));
                }
            } else {
                proof {
                    assert(pass2_error(decls, all_names, i2 as int) == pass2_error(
                        decls,
                        all_names,
                        i2 as int + 1,
                    ));
                }
            }
            i2 += 1;
        }
        Ok(())
    }

    /// Check every user-defined type name within one field type against
    /// the collected identifier set, walking into array elements and
    /// map values.
    pub fn check_undefined_types(&self, field_type: &FieldType, type_names: &Vec<String>) -> (r:
        Result<(), GenoError>)
        ensures
            match r {
                Ok(()) => ft_undefined(field_type@, name_seq(type_names@)) is None,
                Err(e) => {
                    &&& ft_undefined(field_type@, name_seq(type_names@)) matches Some(n)
                        && e@ == GenoErrorView::UndefinedType(n)
                },
            },
        decreases field_type,
    {
        match field_type {
            FieldType::UserDefined(name, _) => {
                if !contains_name(type_names, name.as_str()) {
                    return Err(GenoError::UndefinedType(clone_string(name.as_str())));
                }
                Ok(())
            },
            FieldType::Array(inner, _, _) => self.check_undefined_types(&*inner, type_names),
            FieldType::Mapping(_, value_type, _) => self.check_undefined_types(
                &*value_type,
                type_names,
            ),
            FieldType::Builtin(_, _) => Ok(()),
        }
    }
}

/// True when no two declarations share an identifier.
pub open spec fn decl_idents_unique(decls: Seq<DeclarationView>) -> bool {
    forall|i: int, j: int|
        0 <= i < j < decls.len() ==> decl_ident(decls[i]) != decl_ident(decls[j])
}

/// True when no two members (variants or fields) of one declaration
/// share a name.
pub open spec fn members_unique(d: DeclarationView) -> bool {
    forall|i: int, j: int|
        0 <= i < j < member_names(d).len() ==> member_names(d)[i] != member_names(d)[j]
}

/// True when every user-defined type reference in a declaration's
/// fields, however deeply nested in arrays and maps, is among `names`.
pub open spec fn decl_refs_defined(d: DeclarationView, names: Seq<Seq<char>>) -> bool {
    match d {
        DeclarationView::Struct { fields, .. } => forall|j: int|
            0 <= j < fields.len() ==> ft_undefined(#[trigger] fields[j].1, names) is None,
        DeclarationView::Enum { .. } => true,
    }
}

proof fn lemma_first_dup_member_none(
    owner: Seq<char>,
    is_enum: bool,
    names: Seq<Seq<char>>,
    i: int,
)
    requires
        0 <= i <= names.len(),
    ensures
        first_dup_member(owner, is_enum, names, i) is None <==> (forall|j: int, k: int|
            0 <= j < k < names.len() && i <= k ==> names[j] != names[k]),
    decreases names.len() - i,
{
    if i < names.len() {
        lemma_first_dup_member_none(owner, is_enum, names, i + 1);
        if names.take(i).contains(names[i]) {
            let j = choose|j: int|
                0 <= j < names.take(i).len() && names.take(i)[j] == names[i];
            assert(names[j] == names[i]);
        } else {
            assert forall|j: int| 0 <= j < i implies names[j] != names[i] by {
                if names[j] == names[i] {
                    assert(names.take(i)[j] == names[i]);
                    assert(names.take(i).contains(names[i]));
                }
            }
        }
    }
}

proof fn lemma_pass1_none(decls: Seq<DeclarationView>, i: int)
    requires
        0 <= i <= decls.len(),
    ensures
        pass1_error(decls, i) is None <==> (forall|k: int|
            i <= k < decls.len() ==> !decl_idents(decls.take(k)).contains(
                decl_ident(#[trigger] decls[k]),
            ) && decl_member_error(decls[k]) is None),
    decreases decls.len() - i,
{
    if i < decls.len() {
        lemma_pass1_none(decls, i + 1);
    }
}

proof fn lemma_pass1_characterization(decls: Seq<DeclarationView>)
    ensures
        pass1_error(decls, 0) is None <==> (decl_idents_unique(decls) && (forall|k: int|
            0 <= k < decls.len() ==> members_unique(#[trigger] decls[k]))),
{
    lemma_pass1_none(decls, 0);
    assert forall|k: int| 0 <= k < decls.len() implies (decl_idents(decls.take(k)).contains(
        decl_ident(#[trigger] decls[k]),
    ) <==> exists|j: int| 0 <= j < k && decl_ident(decls[j]) == decl_ident(decls[k])) by {
        if decl_idents(decls.take(k)).contains(decl_ident(decls[k])) {
            let j = choose|j: int|
                0 <= j < decl_idents(decls.take(k)).len() && decl_idents(decls.take(k))[j]
                    == decl_ident(decls[k]);
            assert(decl_ident(decls[j]) == decl_ident(decls[k]));
        }
        if exists|j: int| 0 <= j < k && decl_ident(decls[j]) == decl_ident(decls[k]) {
            let j = choose|j: int| 0 <= j < k && decl_ident(decls[j]) == decl_ident(decls[k]);
            assert(decl_idents(decls.take(k))[j] == decl_ident(decls[k]));
            assert(decl_idents(decls.take(k)).contains(decl_ident(decls[k])));
        }
    }
    assert forall|k: int| 0 <= k < decls.len() implies (decl_member_error(#[trigger] decls[k])
        is None <==> members_unique(decls[k])) by {
        lemma_first_dup_member_none(
            decl_ident(decls[k]),
            is_enum_decl(decls[k]),
            member_names(decls[k]),
            0,
        );
    }
}

proof fn lemma_fields_undefined_none(
    fields: Seq<(Seq<char>, FieldTypeView)>,
    names: Seq<Seq<char>>,
    j: int,
)
    requires
        0 <= j <= fields.len(),
    ensures
        fields_undefined(fields, names, j) is None <==> (forall|k: int|
            j <= k < fields.len() ==> ft_undefined(#[trigger] fields[k].1, names) is None),
    decreases fields.len() - j,
{
    if j < fields.len() {
        lemma_fields_undefined_none(fields, names, j + 1);
    }
}

proof fn lemma_pass2_none(decls: Seq<DeclarationView>, names: Seq<Seq<char>>, i: int)
    requires
        0 <= i <= decls.len(),
    ensures
        pass2_error(decls, names, i) is None <==> (forall|k: int|
            i <= k < decls.len() ==> decl_refs_defined(#[trigger] decls[k], names)),
    decreases decls.len() - i,
{
    if i < decls.len() {
        lemma_pass2_none(decls, names, i + 1);
        match decls[i] {
            DeclarationView::Struct { fields, .. } => {
                lemma_fields_undefined_none(fields, names, 0);
            },
            DeclarationView::Enum { .. } => {},
        }
    }
}

/// Validation succeeds exactly when all declaration identifiers are
/// distinct, member names are distinct within each declaration, and
/// every user-defined type reference anywhere in a struct's field
/// types names some declaration of the schema.  The reference check
/// uses the full identifier set, independent of declaration order, so
/// a struct declared before the type it references (a forward
/// reference) validates.
pub proof fn lemma_validate_ok_characterization(s: SchemaView)
    ensures
        validate_spec(s) is None <==> {
            &&& decl_idents_unique(s.declarations)
            &&& forall|i: int|
                0 <= i < s.declarations.len() ==> members_unique(#[trigger] s.declarations[i])
            &&& forall|i: int|
                0 <= i < s.declarations.len() ==> decl_refs_defined(
                    #[trigger] s.declarations[i],
                    decl_idents(s.declarations),
                )
        },
{
    lemma_pass1_characterization(s.declarations);
    lemma_pass2_none(s.declarations, decl_idents(s.declarations), 0);
}

} // verus!
