//! Errors of font input.
use vstd::prelude::*;
use crate::text::{push_str, string_from_chars};

verus! {

/// Why a CXF or TTF font could not be loaded.
#[derive(Debug, Clone, PartialEq, Eq)]
pub enum FontError {
    /// Reading the CXF file `path` failed with the system's message `source`.
    ReadCxf { path: String, source: String },
    InvalidLine { line: String },
    InvalidArc { line: String },
    /// Reading the TTF file `path` failed with the system's message `source`.
    ReadTtf { path: String, source: String },
    InvalidTtf { path: String },
    MissingScaleGlyph { path: String },
    Canceled,
}

/// The message of a font error.
pub open spec fn font_error_text(e: FontError) -> Seq<char> {
    match e {
        FontError::ReadCxf { path, source } => "unable to read CXF font `"@ + path@ + "`: "@
            + source@,
        FontError::InvalidLine { line } => "invalid line command `"@ + line@ + "`"@,
        FontError::InvalidArc { line } => "invalid arc command `"@ + line@ + "`"@,
        FontError::ReadTtf { path, source } => "unable to read TTF font `"@ + path@ + "`: "@
            + source@,
        FontError::InvalidTtf { path } => "invalid TTF font `"@ + path@ + "`"@,
        FontError::MissingScaleGlyph { path } => "TTF font `"@ + path@
            + "` does not contain outline data for A"@,
        FontError::Canceled => "font parsing canceled"@,
    }
}

impl FontError {
    /// The message shown for this error.
    pub fn message(&self) -> (r: String)
        ensures
            r@ == font_error_text(*self),
    {
        let mut out: Vec<char> = Vec::new();
        match self {
            FontError::ReadCxf { path, source } => {
                push_str(&mut out, "unable to read CXF font `");
                push_str(&mut out, path.as_str());
                push_str(&mut out, "`: ");
                push_str(&mut out, source.as_str());
            },
            FontError::InvalidLine { line } => {
                push_str(&mut out, "invalid line command `");
                push_str(&mut out, line.as_str());
                push_str(&mut out, "`");
            },
            FontError::InvalidArc { line } => {
                push_str(&mut out, "invalid arc command `");
                push_str(&mut out, line.as_str());
                push_str(&mut out, "`");
            },
            FontError::ReadTtf { path, source } => {
                push_str(&mut out, "unable to read TTF font `");
                push_str(&mut out, path.as_str());
                push_str(&mut out, "`: ");
                push_str(&mut out, source.as_str());
            },
            FontError::InvalidTtf { path } => {
                push_str(&mut out, "invalid TTF font `");
                push_str(&mut out, path.as_str());
                push_str(&mut out, "`");
            },
            FontError::MissingScaleGlyph { path } => {
                push_str(&mut out, "TTF font `");
                push_str(&mut out, path.as_str());
                push_str(&mut out, "` does not contain outline data for A");
            },
            FontError::Canceled => push_str(&mut out, "font parsing canceled"),
        }
        string_from_chars(&out)
    }
}

} // verus!
