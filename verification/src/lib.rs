//! Convention-driven rendering of structured value trees.
//!
//! A tree of null/bool/number/string/array/object values is rendered into one
//! of three textual encodings: a lossless compact record, a quoted multi-line
//! document, and a flattened single-line `key=value` line.  Key-name suffixes
//! (`_ms`, `_bytes`, `_secret`, ...) drive value formatting and key stripping
//! in the document and line encodings; the compact encoding only redacts
//! sensitive fields and otherwise preserves the tree byte for byte.

use vstd::prelude::*;

pub mod builders;
pub mod classify;
pub mod document;
pub mod fields;
pub mod jcs;
pub mod json;
pub mod laws;
pub mod line;
pub mod numfmt;
pub mod redact;
pub mod sizeparse;
pub mod strutil;
pub mod time;
pub mod value;

pub use builders::build_json;
pub use builders::build_json_error;
pub use builders::build_json_ok;
pub use builders::error;
pub use builders::error_trace;
pub use builders::ok;
pub use builders::ok_trace;
pub use builders::startup;
pub use builders::status;
pub use classify::classify_field;
pub use classify::extract_currency_code;
pub use document::output_yaml;
pub use document::to_yaml;
pub use json::output_json;
pub use line::output_plain;
pub use line::to_plain;
pub use numfmt::format_bytes_human;
pub use numfmt::format_with_commas;
pub use redact::internal_redact_secrets;
pub use redact::redact_secrets;
pub use sizeparse::parse_size;
pub use value::SpecValue;
pub use value::Value;

verus! {

/// Output format for command-line and API responses.
#[derive(Clone, Copy, PartialEq, Eq, Structural, Debug)]
pub enum OutputFormat {
    Json,
    Yaml,
    Plain,
}

/// Output format for the log layer that a host program may build around
/// this library.
#[derive(Clone, Copy, PartialEq, Eq, Structural, Debug)]
pub enum LogFormat {
    Json,
    Plain,
    Yaml,
}

impl OutputFormat {
    /// Render a value tree in this format, as a single compact line for
    /// the lossless encoding.
    pub fn format(&self, value: &Value) -> (r: String)
        ensures
            r@ == match self {
                OutputFormat::Json => json::json_text(redact::redact(value@)),
                OutputFormat::Yaml => document::doc_text(value@),
                OutputFormat::Plain => line::plain_line(value@),
            },
    {
        match self {
            OutputFormat::Json => json::output_json(value),
            OutputFormat::Yaml => document::output_yaml(value),
            OutputFormat::Plain => line::output_plain(value),
        }
    }

    /// Render a value tree with pretty printing: indented JSON for the
    /// lossless encoding, the document and line encodings unchanged.
    pub fn format_pretty(&self, value: &Value) -> (r: String)
        ensures
            r@ == match self {
                OutputFormat::Json => json::json_pretty(redact::redact(value@), 0),
                OutputFormat::Yaml => document::doc_text(value@),
                OutputFormat::Plain => line::plain_line(value@),
            },
    {
        match self {
            OutputFormat::Json => json::output_json_pretty(value),
            OutputFormat::Yaml => document::output_yaml(value),
            OutputFormat::Plain => line::output_plain(value),
        }
    }

}

impl Default for OutputFormat {
    /// The default format: the lossless compact encoding.
    fn default() -> (r: Self)
        ensures
            r == OutputFormat::Json,
    {
        OutputFormat::Json
    }
}

} // verus!
