//! VERIFICATION.md: the outcome of a phase verification.
use vstd::prelude::*;

use super::frontmatter::{parse_frontmatter, split_spec, Document};
use super::ParseError;
use crate::json::{lookup, opt_str, opt_string_view, str_field, yaml_document, Json};
use crate::text::{chars_of, same_chars};

verus! {

/// The status a VERIFICATION.md reports.
#[derive(Debug, Clone, Copy, PartialEq, Eq, Structural)]
pub enum VerificationStatus {
    Passed,
    GapsFound,
    HumanNeeded,
}

impl VerificationStatus {
    pub open spec fn name(self) -> Seq<char> {
        match self {
            VerificationStatus::Passed => "passed"@,
            VerificationStatus::GapsFound => "gaps_found"@,
            VerificationStatus::HumanNeeded => "human_needed"@,
        }
    }

    /// The status as written in the frontmatter (the `Display` text).
    pub fn to_string(&self) -> (r: String)
        ensures
            r@ == self.name(),
    {
        match self {
            VerificationStatus::Passed => String::from_str("passed"),
            VerificationStatus::GapsFound => String::from_str("gaps_found"),
            VerificationStatus::HumanNeeded => String::from_str("human_needed"),
        }
    }
}

/// Parsed data from a VERIFICATION.md file.
#[derive(Debug, Clone)]
pub struct VerificationMdData {
    pub phase: Option<String>,
    pub status: VerificationStatus,
    pub score: Option<String>,
    pub verified_at: Option<String>,
}

/// The text of the error for a missing `status`.
pub open spec fn missing_status_text() -> Seq<char> {
    "Missing required 'status' field in VERIFICATION.md frontmatter"@
}

/// The text of the error for a `status` that names no known status.
pub open spec fn unknown_status_text(s: Seq<char>) -> Seq<char> {
    "Unknown verification status: '"@ + s + "'"@
}

/// The status named by `s`, if any.
pub open spec fn status_named(s: Seq<char>) -> Option<VerificationStatus> {
    if s == "passed"@ {
        Some(VerificationStatus::Passed)
    } else if s == "gaps_found"@ {
        Some(VerificationStatus::GapsFound)
    } else if s == "human_needed"@ {
        Some(VerificationStatus::HumanNeeded)
    } else {
        None
    }
}

/// The frontmatter can be read into the VERIFICATION.md fields.
pub open spec fn verification_shape_ok(meta: Json) -> bool {
    match meta {
        Json::Object(e) => {
            &&& opt_str(lookup(e@, "phase"@)) is Ok
            &&& opt_str(lookup(e@, "status"@)) is Ok
            &&& opt_str(lookup(e@, "score"@)) is Ok
            &&& opt_str(lookup(e@, "verified_at"@)) is Ok
        },
        _ => false,
    }
}

/// The `status` text of a frontmatter of the right shape.
pub open spec fn status_text(meta: Json) -> Option<Seq<char>> {
    match meta {
        Json::Object(e) => match opt_str(lookup(e@, "status"@)) {
            Ok(o) => o,
            Err(_) => None,
        },
        _ => None,
    }
}

/// What reading the frontmatter `meta` gives.
pub open spec fn verification_result_ok(meta: Json, d: VerificationMdData) -> bool {
    &&& verification_shape_ok(meta)
    &&& meta matches Json::Object(e)
    &&& opt_str(lookup(e@, "phase"@)) == Ok::<_, ()>(opt_string_view(d.phase))
    &&& opt_str(lookup(e@, "score"@)) == Ok::<_, ()>(opt_string_view(d.score))
    &&& opt_str(lookup(e@, "verified_at"@)) == Ok::<_, ()>(opt_string_view(d.verified_at))
    &&& status_text(meta) matches Some(s) && status_named(s) == Some(d.status)
}

/// The error that reading the frontmatter `meta` gives, with its text.
pub open spec fn verification_error(meta: Json, e: ParseError) -> bool {
    if !verification_shape_ok(meta) {
        e matches ParseError::YamlError(m) && m@ == super::state_md::shape_error_text()
    } else {
        match status_text(meta) {
            None => e matches ParseError::InvalidContent(m) && m@ == missing_status_text(),
            Some(s) => status_named(s) is None && (e matches ParseError::InvalidContent(m) && m@
                == unknown_status_text(s)),
        }
    }
}

/// Read a status from its name.
pub fn status_from_text(s: &str) -> (r: Result<VerificationStatus, ParseError>)
    ensures
        match r {
            Ok(v) => status_named(s@) == Some(v),
            Err(e) => status_named(s@) is None && (e matches ParseError::InvalidContent(m) && m@
                == unknown_status_text(s@)),
        },
{
    let c = chars_of(s);
    if same_chars(&c, &chars_of("passed")) {
        Ok(VerificationStatus::Passed)
    } else if same_chars(&c, &chars_of("gaps_found")) {
        Ok(VerificationStatus::GapsFound)
    } else if same_chars(&c, &chars_of("human_needed")) {
        Ok(VerificationStatus::HumanNeeded)
    } else {
        let m = String::from_str("Unknown verification status: '").concat(s).concat("'");
        Err(ParseError::InvalidContent(m))
    }
}

/// Build the VERIFICATION.md data from a parsed document.
pub fn verification_from_document(doc: Document) -> (r: Result<VerificationMdData, ParseError>)
    ensures
        match r {
            Ok(d) => verification_result_ok(doc.metadata, d),
            Err(e) => verification_error(doc.metadata, e),
        },
{
    let e = match &doc.metadata {
        Json::Object(e) => e,
        _ => {
            proof {
                reveal_strlit("frontmatter fields do not have the expected types");
            }
            return Err(
                ParseError::YamlError(
                    String::from_str("frontmatter fields do not have the expected types"),
                ),
            );
        },
    };
    let phase = str_field(e, "phase");
    let status = str_field(e, "status");
    let score = str_field(e, "score");
    let verified_at = str_field(e, "verified_at");
    match (phase, status, score, verified_at) {
        (Ok(phase), Ok(status), Ok(score), Ok(verified_at)) => {
            let status = match status {
                Some(s) => match status_from_text(s.as_str()) {
                    Ok(v) => v,
                    Err(err) => {
                        return Err(err);
                    },
                },
                None => {
                    proof {
                        reveal_strlit(
                            "Missing required 'status' field in VERIFICATION.md frontmatter",
                        );
                    }
                    return Err(
                        ParseError::InvalidContent(
                            String::from_str(
                                "Missing required 'status' field in VERIFICATION.md frontmatter",
                            ),
                        ),
                    );
                },
            };
            Ok(VerificationMdData { phase, status, score, verified_at })
        },
        _ => {
            proof {
                reveal_strlit("frontmatter fields do not have the expected types");
            }
            Err(
                ParseError::YamlError(
                    String::from_str("frontmatter fields do not have the expected types"),
                ),
            )
        },
    }
}

/// Parse a VERIFICATION.md file content into structured data.
///
/// Returns an error if the `status` field is missing or has an unknown value.
pub fn parse_verification_md(content: &str) -> (r: Result<VerificationMdData, ParseError>)
    ensures
        match r {
            Ok(d) => split_spec(content@) matches Ok((y, b)) && yaml_document(y) matches Ok(meta)
                && verification_result_ok(meta, d),
            Err(ParseError::NoFrontmatter) => split_spec(content@) == Err::<
                (Seq<char>, Seq<char>),
                _,
            >(ParseError::NoFrontmatter),
            Err(ParseError::UnclosedFrontmatter) => split_spec(content@) == Err::<
                (Seq<char>, Seq<char>),
                _,
            >(ParseError::UnclosedFrontmatter),
            Err(e) => split_spec(content@) matches Ok((y, b)) && match yaml_document(y) {
                Err(m) => e matches ParseError::YamlError(t) && t@ == m,
                Ok(meta) => verification_error(meta, e),
            },
        },
{
    match parse_frontmatter(content) {
        Ok(doc) => verification_from_document(doc),
        Err(e) => Err(e),
    }
}

} // verus!
