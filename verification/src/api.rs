//! The decisions of the REST handlers that do not touch the database or the
//! disk: request paths, content types, paging and error statuses.
use vstd::prelude::*;

use crate::parser::stage::{contains, ends_with};
use crate::text::{chars_of, find_pattern, has_at, i64_text, same_chars, signed_decimal};

verus! {

/// What `urlencoding::decode` gives for a text: the decoded text, or `None`
/// when the decoded bytes are not UTF-8.
pub uninterp spec fn url_decoded(text: Seq<char>) -> Option<Seq<char>>;

/// Calls `urlencoding::decode`; the contract names its result.
#[verifier::external_body]
fn url_decode(text: &str) -> (r: Option<String>)
    ensures
        crate::json::opt_string_view(r) == url_decoded(text@),
{
    match urlencoding::decode(text) {
        Ok(s) => Some(s.into_owned()),
        Err(_) => None,
    }
}

/// The requested file path, percent-decoded (kept as it is when it does not
/// decode).
pub fn decode_request_path(path: &str) -> (r: String)
    ensures
        r@ == match url_decoded(path@) {
            Some(d) => d,
            None => path@,
        },
{
    match url_decode(path) {
        Some(d) => d,
        None => String::from_str(path),
    }
}

/// A path that contains `..` is refused.
pub fn has_traversal(path: &str) -> (r: bool)
    ensures
        r == contains(path@, ".."@),
{
    let p = chars_of(path);
    find_pattern(&p, &chars_of(".."), 0).is_some()
}

pub open spec fn content_type_spec(path: Seq<char>) -> Seq<char> {
    if ends_with(path, ".md"@) {
        "text/markdown; charset=utf-8"@
    } else if ends_with(path, ".json"@) {
        "application/json; charset=utf-8"@
    } else {
        "text/plain; charset=utf-8"@
    }
}

fn ends_with_exec(s: &[char], p: &[char]) -> (r: bool)
    ensures
        r == ends_with(s@, p@),
{
    if p.len() > s.len() {
        return false;
    }
    has_at(s, s.len() - p.len(), p)
}

/// The content type of a planning file from its extension.
pub fn content_type_for(path: &str) -> (r: String)
    ensures
        r@ == content_type_spec(path@),
{
    let p = chars_of(path);
    if ends_with_exec(&p, &chars_of(".md")) {
        String::from_str("text/markdown; charset=utf-8")
    } else if ends_with_exec(&p, &chars_of(".json")) {
        String::from_str("application/json; charset=utf-8")
    } else {
        String::from_str("text/plain; charset=utf-8")
    }
}

/// The page size of a history request: 50 when not given, at most 200.
pub fn page_limit(limit: Option<i64>) -> (r: i64)
    ensures
        r == match limit {
            Some(l) => if l < 200 {
                l
            } else {
                200
            },
            None => 50,
        },
{
    let l = match limit {
        Some(l) => l,
        None => 50,
    };
    if l < 200 {
        l
    } else {
        200
    }
}

/// The page offset of a history request: 0 when not given.
pub fn page_offset(offset: Option<i64>) -> (r: i64)
    ensures
        r == match offset {
            Some(o) => o,
            None => 0,
        },
{
    match offset {
        Some(o) => o,
        None => 0,
    }
}

/// The status of a failed project registration: 409 when the path is
/// already registered (a unique constraint failed), else 500.
pub fn create_error_status(error_text: &str) -> (r: u16)
    ensures
        r == if contains(error_text@, "UNIQUE constraint failed"@) {
            409u16
        } else {
            500u16
        },
{
    let e = chars_of(error_text);
    if find_pattern(&e, &chars_of("UNIQUE constraint failed"), 0).is_some() {
        409
    } else {
        500
    }
}

/// The status of a failed state lookup: 404 when the project is not
/// found, else 500.
pub fn state_error_status(error_text: &str) -> (r: u16)
    ensures
        r == if contains(error_text@, "not found"@) {
            404u16
        } else {
            500u16
        },
{
    let e = chars_of(error_text);
    if find_pattern(&e, &chars_of("not found"), 0).is_some() {
        404
    } else {
        500
    }
}

/// Why a run cannot be shown for a project: it does not exist, or it
/// belongs to another project.
pub open spec fn run_access_spec(run_id: i64, run_project: Option<Seq<char>>, project_id: Seq<char>) -> Option<Seq<char>> {
    match run_project {
        None => Some("Run "@ + signed_decimal(run_id as int) + " not found"@),
        Some(p) => if p == project_id {
            None
        } else {
            Some(
                "Run "@ + signed_decimal(run_id as int) + " not found for project "@ + project_id,
            )
        },
    }
}

/// Check that a run (found with the project it belongs to, or not found)
/// may be shown for a project; the error is the message of the 404.
pub fn run_access(run_id: i64, run_project: Option<&str>, project_id: &str) -> (r: Result<(), String>)
    ensures
        match run_access_spec(
            run_id,
            match run_project {
                Some(p) => Some(p@),
                None => None,
            },
            project_id@,
        ) {
            None => r is Ok,
            Some(m) => r matches Err(e) && e@ == m,
        },
{
    match run_project {
        None => Err(String::from_str("Run ").concat(i64_text(run_id).as_str()).concat(" not found")),
        Some(p) => {
            if same_chars(&chars_of(p), &chars_of(project_id)) {
                Ok(())
            } else {
                Err(
                    String::from_str("Run ").concat(i64_text(run_id).as_str()).concat(
                        " not found for project ",
                    ).concat(project_id),
                )
            }
        },
    }
}

/// The status and message of a failed project registration.
pub fn create_error_response(error_text: &str, path: &str) -> (r: (u16, String))
    ensures
        contains(error_text@, "UNIQUE constraint failed"@) ==> r.0 == 409 && r.1@
            == "Project path already registered: "@ + path@,
        !contains(error_text@, "UNIQUE constraint failed"@) ==> r.0 == 500 && r.1@
            == "Database error: "@ + error_text@,
{
    let status = create_error_status(error_text);
    if status == 409 {
        (409, String::from_str("Project path already registered: ").concat(path))
    } else {
        (500, String::from_str("Database error: ").concat(error_text))
    }
}

} // verus!
