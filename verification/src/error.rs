//! The compiler's error values and their one-line renderings.
//!
//! Every failure of parsing, number reading or validation is reported
//! as a single error value carrying enough context to render a
//! one-line diagnostic; the first error aborts the whole compile.

use crate::text::{dec_digits, push_char, usize_to_string};
use vstd::prelude::*;
use vstd::string::*;

verus! {

/// A location within a schema source file.
#[derive(Debug, Clone, Copy, PartialEq, Eq, Structural)]
pub struct Location {
    /// The one-based line number.
    pub line: usize,
    /// The one-based column number.
    pub column: usize,
}

/// The `line:column` rendering of a location.
pub open spec fn location_text(l: Location) -> Seq<char> {
    dec_digits(l.line as int) + seq![':'] + dec_digits(l.column as int)
}

impl Location {
    /// Renders the location as `line:column`.
    pub fn to_text(&self) -> (r: String)
        ensures
            r@ == location_text(*self),
    {
        let mut out = usize_to_string(self.line);
        push_char(&mut out, ':');
        let col = usize_to_string(self.column);
        out.append(col.as_str());
        out
    }
}

/// The compiler's error kinds.
#[derive(Debug, Clone, PartialEq)]
pub enum GenoError {
    /// The parser met input matching no grammar production.
    Parse {
        /// The offending source line.
        content: String,
        /// File path of the schema.
        file: String,
        /// Location of the offending input.
        location: Location,
    },
    /// An integer literal's digits could not be read under its radix.
    NumberFormat {
        /// The offending literal text.
        content: String,
        /// File path of the schema.
        file: String,
        /// Location of the literal.
        location: Location,
    },
    /// A literal or length read correctly but is out of range.
    NumberRange {
        /// The offending literal text.
        content: String,
        /// File path of the schema.
        file: String,
        /// Location of the literal.
        location: Location,
    },
    /// Two declarations share an identifier.
    DuplicateType(String),
    /// A field references a user-defined type that is never declared.
    UndefinedType(String),
    /// Two fields within one struct share a name; the first component
    /// is the struct's identifier.
    DuplicateField(String, String),
    /// Two variants within one enum share a name; the first component
    /// is the enum's identifier.
    DuplicateVariant(String, String),
}

/// The mathematical model of an error value.
pub enum GenoErrorView {
    /// Model of [`GenoError::Parse`].
    Parse { content: Seq<char>, file: Seq<char>, location: Location },
    /// Model of [`GenoError::NumberFormat`].
    NumberFormat { content: Seq<char>, file: Seq<char>, location: Location },
    /// Model of [`GenoError::NumberRange`].
    NumberRange { content: Seq<char>, file: Seq<char>, location: Location },
    /// Model of [`GenoError::DuplicateType`].
    DuplicateType(Seq<char>),
    /// Model of [`GenoError::UndefinedType`].
    UndefinedType(Seq<char>),
    /// Model of [`GenoError::DuplicateField`].
    DuplicateField(Seq<char>, Seq<char>),
    /// Model of [`GenoError::DuplicateVariant`].
    DuplicateVariant(Seq<char>, Seq<char>),
}

impl View for GenoError {
    type V = GenoErrorView;

    open spec fn view(&self) -> GenoErrorView {
        match self {
            GenoError::Parse { content, file, location } => GenoErrorView::Parse {
                content: content@,
                file: file@,
                location: *location,
            },
            GenoError::NumberFormat { content, file, location } => GenoErrorView::NumberFormat {
                content: content@,
                file: file@,
                location: *location,
            },
            GenoError::NumberRange { content, file, location } => GenoErrorView::NumberRange {
                content: content@,
                file: file@,
                location: *location,
            },
            GenoError::DuplicateType(n) => GenoErrorView::DuplicateType(n@),
            GenoError::UndefinedType(n) => GenoErrorView::UndefinedType(n@),
            GenoError::DuplicateField(s, f) => GenoErrorView::DuplicateField(s@, f@),
            GenoError::DuplicateVariant(s, v) => GenoErrorView::DuplicateVariant(s@, v@),
        }
    }
}

/// The one-line diagnostic text of an error.
pub open spec fn error_message_text(e: GenoErrorView) -> Seq<char> {
    match e {
        GenoErrorView::Parse { content, file, location } => "unable to parse '"@ + content + "' ("@
            + file + seq![':'] + location_text(location) + ")"@,
        GenoErrorView::NumberFormat { content, file, location } => "bad number format '"@ + content
            + "' ("@ + file + seq![':'] + location_text(location) + ")"@,
        GenoErrorView::NumberRange { content, file, location } => "value out of range '"@ + content
            + "' ("@ + file + seq![':'] + location_text(location) + ")"@,
        GenoErrorView::DuplicateType(n) => "duplicate type '"@ + n + "'"@,
        GenoErrorView::UndefinedType(n) => "undefined type '"@ + n + "'"@,
        GenoErrorView::DuplicateField(s, f) => "duplicate field '"@ + f + "' in struct '"@ + s
            + "'"@,
        GenoErrorView::DuplicateVariant(s, v) => "duplicate variant '"@ + v + "' in enum '"@ + s
            + "'"@,
    }
}

impl GenoError {
    /// Create a new parse error.
    pub fn new_parse_error(content: String, file: String, location: Location) -> (r: Self)
        ensures
            r@ == (GenoErrorView::Parse { content: content@, file: file@, location }),
    {
        GenoError::Parse { content, file, location }
    }

    /// Create a new number format error.
    pub fn new_number_format_error(content: String, file: String, location: Location) -> (r: Self)
        ensures
            r@ == (GenoErrorView::NumberFormat { content: content@, file: file@, location }),
    {
        GenoError::NumberFormat { content, file, location }
    }

    /// Create a new number range error.
    pub fn new_number_range_error(content: String, file: String, location: Location) -> (r: Self)
        ensures
            r@ == (GenoErrorView::NumberRange { content: content@, file: file@, location }),
    {
        GenoError::NumberRange { content, file, location }
    }

    /// Renders the one-line diagnostic for this error.
    pub fn message(&self) -> (r: String)
        ensures
            r@ == error_message_text(self@),
    {
        match self {
            GenoError::Parse { content, file, location } => {
                let mut out = String::from_str("unable to parse '");
                out.append(content.as_str());
                out.append("' (");
                out.append(file.as_str());
                push_char(&mut out, ':');
                let loc = location.to_text();
                out.append(loc.as_str());
                out.append(")");
                out
            },
            GenoError::NumberFormat { content, file, location } => {
                let mut out = String::from_str("bad number format '");
                out.append(content.as_str());
                out.append("' (");
                out.append(file.as_str());
                push_char(&mut out, ':');
                let loc = location.to_text();
                out.append(loc.as_str());
                out.append(")");
                out
            },
            GenoError::NumberRange { content, file, location } => {
                let mut out = String::from_str("value out of range '");
                out.append(content.as_str());
                out.append("' (");
                out.append(file.as_str());
                push_char(&mut out, ':');
                let loc = location.to_text();
                out.append(loc.as_str());
                out.append(")");
                out
            },
            GenoError::DuplicateType(n) => {
                let mut out = String::from_str("duplicate type '");
                out.append(n.as_str());
                out.append("'");
                out
            },
            GenoError::UndefinedType(n) => {
                let mut out = String::from_str("undefined type '");
                out.append(n.as_str());
                out.append("'");
                out
            },
            GenoError::DuplicateField(s, f) => {
                let mut out = String::from_str("duplicate field '");
                out.append(f.as_str());
                out.append("' in struct '");
                out.append(s.as_str());
                out.append("'");
                out
            },
            GenoError::DuplicateVariant(s, v) => {
                let mut out = String::from_str("duplicate variant '");
                out.append(v.as_str());
                out.append("' in enum '");
                out.append(s.as_str());
                out.append("'");
                out
            },
        }
    }

}

} // verus!
