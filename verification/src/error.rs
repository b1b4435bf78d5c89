//! Error type returned by the public pipeline functions.

use vstd::prelude::*;
use vstd::string::StringExecFns;

verus! {

/// Errors produced by the library.
#[derive(Debug, Clone)]
pub enum AstchunkError {
    /// The requested language is not supported.
    UnsupportedLanguage {
        /// Language name that was not recognized.
        language: String,
    },
    /// Tree-sitter parsing failed.
    ParseFailed {
        /// Language being parsed.
        language: String,
        /// Description of the failure.
        message: String,
    },
    /// A builder configuration value is invalid.
    InvalidConfiguration {
        /// Configuration field name.
        field: &'static str,
        /// Description of why the value is invalid.
        message: &'static str,
    },
    /// A required origin field is missing.
    InvalidOrigin {
        /// The missing field name.
        field: &'static str,
    },
    /// An exporter requires a field that was not provided.
    ExportRequirementMissing {
        /// The exporter that needs the field.
        exporter: &'static str,
        /// The missing field name.
        field: &'static str,
    },
}

/// The human-readable message of an error.
pub open spec fn error_message(e: AstchunkError) -> Seq<char> {
    match e {
        AstchunkError::UnsupportedLanguage { language } => "unsupported language: "@ + language@,
        AstchunkError::ParseFailed { language, message } => "parse failed for "@ + language@
            + ": "@ + message@,
        AstchunkError::InvalidConfiguration { field, message } => "invalid configuration for `"@
            + field@ + "`: "@ + message@,
        AstchunkError::InvalidOrigin { field } => "invalid origin: missing `"@ + field@ + "`"@,
        AstchunkError::ExportRequirementMissing { exporter, field } => "export requirement missing for "@
            + exporter@ + ": `"@ + field@ + "`"@,
    }
}

impl AstchunkError {
    /// The human-readable message of this error.
    pub fn message(&self) -> (r: String)
        ensures
            r@ == error_message(*self),
    {
        match self {
            AstchunkError::UnsupportedLanguage { language } => {
                let mut s = String::from_str("unsupported language: ");
                s.append(language.as_str());
                s
            },
            AstchunkError::ParseFailed { language, message } => {
                let mut s = String::from_str("parse failed for ");
                s.append(language.as_str());
                s.append(": ");
                s.append(message.as_str());
                s
            },
            AstchunkError::InvalidConfiguration { field, message } => {
                let mut s = String::from_str("invalid configuration for `");
                s.append(field);
                s.append("`: ");
                s.append(message);
                s
            },
            AstchunkError::InvalidOrigin { field } => {
                let mut s = String::from_str("invalid origin: missing `");
                s.append(field);
                s.append("`");
                s
            },
            AstchunkError::ExportRequirementMissing { exporter, field } => {
                let mut s = String::from_str("export requirement missing for ");
                s.append(exporter);
                s.append(": `");
                s.append(field);
                s.append("`");
                s
            },
        }
    }
}

} // verus!
