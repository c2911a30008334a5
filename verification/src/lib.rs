//! A schema-definition-language compiler: it parses declarative type
//! descriptions (enum and struct declarations with typed, optionally
//! nullable, optionally array/map fields) into a validated abstract
//! syntax tree, and drives code-generation backends that emit native
//! type declarations plus binary serialization logic for different
//! target languages.
//!
//! The whole pipeline is a pure batch transformation: parse, build,
//! validate, generate.  Every stage's result is a function of the
//! source text alone, so two runs on the same text yield byte-identical
//! output, and generated code from independently-run backends stays
//! wire-compatible.

pub mod ast;
pub mod backend_dart;
pub mod backend_rust;
pub mod casing;
pub mod codec;
pub mod error;
pub mod lexer;
pub mod parser;
pub mod text;

pub use crate::error::GenoError;
pub use crate::error::Location;

use crate::ast::{validate_spec, Schema, SchemaView};
use crate::error::GenoErrorView;
use crate::lexer::{col_of, line_of, line_text_at, tokenize};
use crate::parser::{lemma_sp_tokens_wf, parse_tokens, sp_schema};
use crate::text::{clone_string, str_to_chars};
use vstd::prelude::*;

verus! {

/// The parse of whole source text: its token stream fed to the
/// grammar, or the parse error at the first character where no token
/// can start.
pub open spec fn sp_parse(s: Seq<char>, f: Seq<char>) -> Result<SchemaView, GenoErrorView> {
    match crate::lexer::sp_tokens(s, 0) {
        Err(p) => Err(
            GenoErrorView::Parse {
                content: line_text_at(s, p),
                file: f,
                location: Location { line: line_of(s, p) as usize, column: col_of(s, p) as usize },
            },
        ),
        Ok(ts) => sp_schema(ts, f),
    }
}

/// What building a schema from source yields: the parsed schema where
/// it parses and validates, else the first error in pipeline order.
pub open spec fn sp_build(s: Seq<char>, f: Seq<char>) -> Result<SchemaView, GenoErrorView> {
    match sp_parse(s, f) {
        Err(e) => Err(e),
        Ok(v) => match validate_spec(v) {
            Some(e) => Err(e),
            None => Ok(v),
        },
    }
}

/// The schema parser: source text in, unvalidated syntax tree out.
pub struct GenoParser;

impl GenoParser {
    /// Parses schema source text into an unvalidated schema; the first
    /// syntactic failure aborts the parse with the offending line and
    /// its location.
    pub fn parse(input: &str, file: &str) -> (r: Result<Schema, GenoError>)
        requires
            input@.len() < usize::MAX,
        ensures
            match r {
                Ok(schema) => sp_parse(input@, file@) == Ok::<SchemaView, GenoErrorView>(schema@),
                Err(e) => sp_parse(input@, file@) == Err::<SchemaView, GenoErrorView>(e@),
            },
    {
        let chars = str_to_chars(input);
        match tokenize(&chars) {
            Err(p) => {
                let (content, line, column) = crate::lexer::line_context(&chars, p);
                Err(
                    GenoError::Parse {
                        content,
                        file: clone_string(file),
                        location: Location { line, column },
                    },
                )
            },
            Ok(toks) => {
                proof {
                    lemma_sp_tokens_wf(input@, 0);
                }
                parse_tokens(&toks, file)
            },
        }
    }
}

/// A schema builder; it carries the source file's path so that
/// diagnostics can name it.
pub struct GenoAstBuilder {
    file_path: String,
}

impl GenoAstBuilder {
    /// The path diagnostics name.
    pub closed spec fn file_spec(&self) -> Seq<char> {
        self.file_path@
    }

    /// Create a new schema builder from a file path.  A file path is
    /// required in order to give meaningful error messages.
    pub fn new(file_path: String) -> (r: Self)
        ensures
            r.file_spec() == file_path@,
    {
        GenoAstBuilder { file_path }
    }

    /// Build and validate the AST from schema source text: the parsed
    /// schema where the text parses and validates, else the first
    /// error in pipeline order.
    pub fn build(&self, input: &str) -> (r: Result<Schema, GenoError>)
        requires
            input@.len() < usize::MAX,
        ensures
            match r {
                Ok(schema) => sp_build(input@, self.file_spec()) == Ok::<
                    SchemaView,
                    GenoErrorView,
                >(schema@),
                Err(e) => sp_build(input@, self.file_spec()) == Err::<
                    SchemaView,
                    GenoErrorView,
                >(e@),
            },
    {
        match GenoParser::parse(input, self.file_path.as_str()) {
            Err(e) => Err(e),
            Ok(schema) => match schema.validate() {
                Err(e) => Err(e),
                Ok(()) => Ok(schema),
            },
        }
    }
}

/// The text the structural backend emits for source text, or the first
/// error of the pipeline.
pub open spec fn sp_compile_structural(s: Seq<char>, f: Seq<char>) -> Result<
    Seq<char>,
    GenoErrorView,
> {
    match sp_build(s, f) {
        Err(e) => Err(e),
        Ok(v) => Ok(crate::backend_rust::schema_text(v)),
    }
}

/// The text the explicit backend emits for source text, or the first
/// error of the pipeline.
pub open spec fn sp_compile_explicit(s: Seq<char>, f: Seq<char>) -> Result<
    Seq<char>,
    GenoErrorView,
> {
    match sp_build(s, f) {
        Err(e) => Err(e),
        Ok(v) => Ok(crate::backend_dart::schema_text(v)),
    }
}

/// Compiles schema source text with the structural backend.  The
/// result is a function of the source text alone: two runs on the same
/// text yield byte-identical generated text.
pub fn compile_structural(input: &str, file: &str) -> (r: Result<String, GenoError>)
    requires
        input@.len() < usize::MAX,
    ensures
        match r {
            Ok(out) => sp_compile_structural(input@, file@) == Ok::<
                Seq<char>,
                GenoErrorView,
            >(out@),
            Err(e) => sp_compile_structural(input@, file@) == Err::<
                Seq<char>,
                GenoErrorView,
            >(e@),
        },
{
    let builder = GenoAstBuilder::new(clone_string(file));
    match builder.build(input) {
        Err(e) => Err(e),
        Ok(schema) => Ok(crate::backend_rust::generate(&schema)),
    }
}

/// Compiles schema source text with the explicit backend.  The result
/// is a function of the source text alone: two runs on the same text
/// yield byte-identical generated text.
pub fn compile_explicit(input: &str, file: &str) -> (r: Result<String, GenoError>)
    requires
        input@.len() < usize::MAX,
    ensures
        match r {
            Ok(out) => sp_compile_explicit(input@, file@) == Ok::<Seq<char>, GenoErrorView>(out@),
            Err(e) => sp_compile_explicit(input@, file@) == Err::<Seq<char>, GenoErrorView>(e@),
        },
{
    let builder = GenoAstBuilder::new(clone_string(file));
    match builder.build(input) {
        Err(e) => Err(e),
        Ok(schema) => Ok(crate::backend_dart::generate(&schema)),
    }
}

/// A built schema's metadata keys are unique: for any source text that
/// builds, no two metadata entries share a key, because a later entry
/// for an existing key replaces its value in place.
pub proof fn lemma_build_metadata_unique(s: Seq<char>, f: Seq<char>)
    ensures
        sp_build(s, f) matches Ok(v) ==> crate::parser::meta_keys_unique(v.metadata),
{
    match crate::lexer::sp_tokens(s, 0) {
        Ok(ts) => {
            crate::parser::lemma_meta_keys_unique(ts, 0, f);
        },
        Err(_) => {},
    }
}

} // verus!
