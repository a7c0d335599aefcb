//! Parsers for the files of a project's `.planning/` directory.
pub mod agent_history;
pub mod config_json;
pub mod frontmatter;
pub mod phase_order;
pub mod plan;
pub mod roadmap;
pub mod stage;
pub mod summary;
pub mod state_md;
pub mod verification;

use vstd::prelude::*;

verus! {

/// Unified error type for all GSD file parsers. The variants that came from
/// an outside parser hold the text of that parser's error.
#[derive(Debug)]
pub enum ParseError {
    /// Input contains no YAML frontmatter delimiters
    NoFrontmatter,
    /// Opening `---` found but no closing `---`
    UnclosedFrontmatter,
    /// YAML content between delimiters is invalid
    YamlError(String),
    /// JSON content is invalid
    JsonError(String),
    /// A text pattern could not be applied
    RegexError(String),
    /// I/O error reading file content
    IoError(String),
    /// Content structure is invalid (e.g., missing required sections)
    InvalidContent(String),
}

/// The text shown for an error.
pub open spec fn error_message(e: ParseError) -> Seq<char> {
    match e {
        ParseError::NoFrontmatter => "No YAML frontmatter found"@,
        ParseError::UnclosedFrontmatter => "Unclosed YAML frontmatter (missing closing ---)"@,
        ParseError::YamlError(m) => "YAML parse error: "@ + m@,
        ParseError::JsonError(m) => "JSON parse error: "@ + m@,
        ParseError::RegexError(m) => "Regex error: "@ + m@,
        ParseError::IoError(m) => "I/O error: "@ + m@,
        ParseError::InvalidContent(m) => "Invalid content: "@ + m@,
    }
}

impl ParseError {
    /// The text shown for the error (the `Display` text).
    pub fn message(&self) -> (r: String)
        ensures
            r@ == error_message(*self),
    {
        match self {
            ParseError::NoFrontmatter => String::from_str("No YAML frontmatter found"),
            ParseError::UnclosedFrontmatter => String::from_str(
                "Unclosed YAML frontmatter (missing closing ---)",
            ),
            ParseError::YamlError(m) => String::from_str("YAML parse error: ").concat(m.as_str()),
            ParseError::JsonError(m) => String::from_str("JSON parse error: ").concat(m.as_str()),
            ParseError::RegexError(m) => String::from_str("Regex error: ").concat(m.as_str()),
            ParseError::IoError(m) => String::from_str("I/O error: ").concat(m.as_str()),
            ParseError::InvalidContent(m) => String::from_str("Invalid content: ").concat(
                m.as_str(),
            ),
        }
    }
}

} // verus!
