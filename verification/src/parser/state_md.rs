//! STATE.md: frontmatter fields and the current position read from the body.
use vstd::prelude::*;

use super::frontmatter::{parse_frontmatter, split_spec, Document};
use super::ParseError;
use crate::classes::{digit_class, digit_run, digit_run_exec, is_digit_class, lemma_digit_run};
use crate::json::{int_field, lookup, opt_int, opt_str, opt_string_view, str_field, yaml_document, Json};
use crate::text::{
    chars_of, has_at, lemma_skip_ws_bounds, occurs_at, skip_whitespace, skip_ws, slice_range,
    string_of,
};

verus! {

/// Progress data extracted from STATE.md frontmatter.
#[derive(Debug, Clone, Copy, PartialEq, Eq, Structural)]
pub struct ProgressData {
    pub total_phases: Option<i64>,
    pub completed_phases: Option<i64>,
    pub total_plans: Option<i64>,
    pub completed_plans: Option<i64>,
    pub percent: Option<i64>,
}

/// Complete parsed data from a STATE.md file.
#[derive(Debug, Clone)]
pub struct StateMdData {
    pub gsd_state_version: Option<String>,
    pub milestone: Option<String>,
    pub milestone_name: Option<String>,
    pub status: Option<String>,
    pub stopped_at: Option<String>,
    pub last_updated: Option<String>,
    pub last_activity: Option<String>,
    pub progress: Option<ProgressData>,
    /// Extracted from body: "Phase: N of M" -> "N"
    pub current_phase: Option<String>,
    /// Extracted from body: "Plan: N of M" -> "N"
    pub current_plan: Option<String>,
}

/// The `progress` mapping read the way serde's derive reads an
/// `Option<ProgressData>` field.
pub open spec fn progress_spec(v: Option<Json>) -> Result<Option<ProgressData>, ()> {
    match v {
        None => Ok(None),
        Some(Json::Null) => Ok(None),
        Some(Json::Object(e)) => {
            let a = opt_int(lookup(e@, "total_phases"@));
            let b = opt_int(lookup(e@, "completed_phases"@));
            let c = opt_int(lookup(e@, "total_plans"@));
            let d = opt_int(lookup(e@, "completed_plans"@));
            let p = opt_int(lookup(e@, "percent"@));
            if a is Ok && b is Ok && c is Ok && d is Ok && p is Ok {
                Ok(
                    Some(
                        ProgressData {
                            total_phases: a->Ok_0,
                            completed_phases: b->Ok_0,
                            total_plans: c->Ok_0,
                            completed_plans: d->Ok_0,
                            percent: p->Ok_0,
                        },
                    ),
                )
            } else {
                Err(())
            }
        },
        Some(_) => Err(()),
    }
}

/// The names of the text fields of the STATE.md frontmatter.
pub open spec fn state_text_keys() -> Seq<Seq<char>> {
    seq![
        "gsd_state_version"@,
        "milestone"@,
        "milestone_name"@,
        "status"@,
        "stopped_at"@,
        "last_updated"@,
        "last_activity"@,
    ]
}

/// The frontmatter can be read into the STATE.md fields: a mapping whose
/// text fields are strings (or absent or null) and whose `progress` reads.
pub open spec fn state_shape_ok(meta: Json) -> bool {
    match meta {
        Json::Object(e) => {
            &&& forall|i: int|
                0 <= i < state_text_keys().len() ==> (#[trigger] opt_str(
                    lookup(e@, state_text_keys()[i]),
                )) is Ok
            &&& progress_spec(lookup(e@, "progress"@)) is Ok
        },
        _ => false,
    }
}

/// A text field of the frontmatter read into `out`.
pub open spec fn reads_text(e: Seq<(String, Json)>, key: Seq<char>, out: Option<String>) -> bool {
    opt_str(lookup(e, key)) == Ok::<_, ()>(opt_string_view(out))
}

/// `d` holds what the frontmatter `meta` and the body `body` say.
pub open spec fn state_matches(meta: Json, body: Seq<char>, d: StateMdData) -> bool {
    match meta {
        Json::Object(e) => {
            &&& reads_text(e@, "gsd_state_version"@, d.gsd_state_version)
            &&& reads_text(e@, "milestone"@, d.milestone)
            &&& reads_text(e@, "milestone_name"@, d.milestone_name)
            &&& reads_text(e@, "status"@, d.status)
            &&& reads_text(e@, "stopped_at"@, d.stopped_at)
            &&& reads_text(e@, "last_updated"@, d.last_updated)
            &&& reads_text(e@, "last_activity"@, d.last_activity)
            &&& progress_spec(lookup(e@, "progress"@)) == Ok::<_, ()>(d.progress)
            &&& opt_string_view(d.current_phase) == position_from(body, "Phase:"@, 0)
            &&& opt_string_view(d.current_plan) == position_from(body, "Plan:"@, 0)
        },
        _ => false,
    }
}

/// The message of the error for a frontmatter that does not have the shape
/// of the STATE.md fields.
pub open spec fn shape_error_text() -> Seq<char> {
    "frontmatter fields do not have the expected types"@
}

/// `Label:\s*(\d+)\s+of\s+\d+` matched at `p`: the captured digits.
pub open spec fn position_at(s: Seq<char>, label: Seq<char>, p: int) -> Option<Seq<char>> {
    let b = skip_ws(s, p + label.len());
    let c = digit_run(s, b);
    let d = skip_ws(s, c);
    let e = skip_ws(s, d + 2);
    if occurs_at(s, label, p) && c > b && d > c && d + 2 <= s.len() && s[d] == 'o' && s[d + 1]
        == 'f' && e > d + 2 && e < s.len() && digit_class(s[e]) {
        Some(s.subrange(b, c))
    } else {
        None
    }
}

/// The capture of the leftmost match at or after `p`.
pub open spec fn position_from(s: Seq<char>, label: Seq<char>, p: int) -> Option<Seq<char>>
    decreases s.len() - p,
{
    if p < 0 || p >= s.len() {
        None
    } else {
        match position_at(s, label, p) {
            Some(x) => Some(x),
            None => position_from(s, label, p + 1),
        }
    }
}

/// The captured digits (as `s[b..c]`) of a match at `p`.
fn position_at_exec(s: &[char], label: &[char], p: usize) -> (r: Option<(usize, usize)>)
    requires
        p < s@.len(),
    ensures
        match r {
            Some((b, c)) => b <= c <= s@.len() && position_at(s@, label@, p as int) == Some(
                s@.subrange(b as int, c as int),
            ),
            None => position_at(s@, label@, p as int) is None,
        },
{
    if !has_at(s, p, label) {
        return None;
    }
    let n = s.len();
    assert(p + label@.len() <= n);
    let b = skip_whitespace(s, p + label.len());
    proof {
        lemma_skip_ws_bounds(s@, p + label@.len());
    }
    let c = digit_run_exec(s, b);
    proof {
        lemma_digit_run(s@, b as int);
    }
    if c == b {
        return None;
    }
    let d = skip_whitespace(s, c);
    proof {
        lemma_skip_ws_bounds(s@, c as int);
    }
    if d == c || s.len() - d < 2 || s[d] != 'o' || s[d + 1] != 'f' {
        return None;
    }
    let e = skip_whitespace(s, d + 2);
    proof {
        lemma_skip_ws_bounds(s@, d + 2);
    }
    if e == d + 2 || e >= s.len() || !is_digit_class(s[e]) {
        return None;
    }
    Some((b, c))
}

/// Extract the number after `label` in a `Label: N of M` line of the body.
pub fn find_position(body: &[char], label: &[char]) -> (r: Option<String>)
    ensures
        opt_string_view(r) == position_from(body@, label@, 0),
{
    let mut p: usize = 0;
    while p < body.len()
        invariant
            p <= body@.len(),
            position_from(body@, label@, p as int) == position_from(body@, label@, 0),
        decreases body@.len() - p,
    {
        match position_at_exec(body, label, p) {
            Some((b, c)) => {
                let digits = slice_range(body, b, c);
                return Some(string_of(&digits));
            },
            None => {},
        }
        p = p + 1;
    }
    None
}

/// Extract current phase and plan numbers from the body text.
pub fn parse_current_position(body: &str) -> (r: (Option<String>, Option<String>))
    ensures
        opt_string_view(r.0) == position_from(body@, "Phase:"@, 0),
        opt_string_view(r.1) == position_from(body@, "Plan:"@, 0),
{
    let text = chars_of(body);
    let phase_label = chars_of("Phase:");
    let plan_label = chars_of("Plan:");
    (find_position(&text, &phase_label), find_position(&text, &plan_label))
}

/// The `progress` field of the frontmatter entries.
fn read_progress(entries: &Vec<(String, Json)>) -> (r: Result<Option<ProgressData>, ()>)
    ensures
        r == progress_spec(lookup(entries@, "progress"@)),
{
    let key = chars_of("progress");
    match crate::json::find_field(entries, &key) {
        None => Ok(None),
        Some(i) => match &entries[i].1 {
            Json::Null => Ok(None),
            Json::Object(e) => {
                let a = int_field(e, "total_phases");
                let b = int_field(e, "completed_phases");
                let c = int_field(e, "total_plans");
                let d = int_field(e, "completed_plans");
                let p = int_field(e, "percent");
                match (a, b, c, d, p) {
                    (Ok(a), Ok(b), Ok(c), Ok(d), Ok(p)) => Ok(
                        Some(
                            ProgressData {
                                total_phases: a,
                                completed_phases: b,
                                total_plans: c,
                                completed_plans: d,
                                percent: p,
                            },
                        ),
                    ),
                    _ => Err(()),
                }
            },
            _ => Err(()),
        },
    }
}

/// Build the STATE.md data from a parsed document: the frontmatter must be a
/// mapping whose fields have the types of the STATE.md fields.
pub fn state_from_document(doc: Document) -> (r: Result<StateMdData, ParseError>)
    ensures
        match r {
            Ok(d) => state_matches(doc.metadata, doc.content@, d),
            Err(ParseError::YamlError(m)) => !state_shape_ok(doc.metadata) && m@
                == shape_error_text(),
            Err(_) => false,
        },
{
    let err = ParseError::YamlError(String::from_str("frontmatter fields do not have the expected types"));
    proof {
        reveal_strlit("frontmatter fields do not have the expected types");
    }
    let e = match &doc.metadata {
        Json::Object(e) => e,
        _ => {
            return Err(err);
        },
    };
    let gsd_state_version = str_field(e, "gsd_state_version");
    let milestone = str_field(e, "milestone");
    let milestone_name = str_field(e, "milestone_name");
    let status = str_field(e, "status");
    let stopped_at = str_field(e, "stopped_at");
    let last_updated = str_field(e, "last_updated");
    let last_activity = str_field(e, "last_activity");
    let progress = read_progress(e);
    match (
        gsd_state_version,
        milestone,
        milestone_name,
        status,
        stopped_at,
        last_updated,
        last_activity,
        progress,
    ) {
        (Ok(v), Ok(m), Ok(mn), Ok(s), Ok(sa), Ok(lu), Ok(la), Ok(p)) => {
            let (current_phase, current_plan) = parse_current_position(doc.content.as_str());
            Ok(
                StateMdData {
                    gsd_state_version: v,
                    milestone: m,
                    milestone_name: mn,
                    status: s,
                    stopped_at: sa,
                    last_updated: lu,
                    last_activity: la,
                    progress: p,
                    current_phase,
                    current_plan,
                },
            )
        },
        _ => {
            proof {
                let k = state_text_keys();
                if progress_spec(lookup(e@, "progress"@)) is Ok {
                    assert(opt_str(lookup(e@, k[0])) is Err || opt_str(lookup(e@, k[1])) is Err
                        || opt_str(lookup(e@, k[2])) is Err || opt_str(lookup(e@, k[3])) is Err
                        || opt_str(lookup(e@, k[4])) is Err || opt_str(lookup(e@, k[5])) is Err
                        || opt_str(lookup(e@, k[6])) is Err);
                }
            }
            Err(err)
        },
    }
}

/// Parse a STATE.md file content into structured data.
///
/// Extracts YAML frontmatter fields and parses the body for Current Position section.
pub fn parse_state_md(content: &str) -> (r: Result<StateMdData, ParseError>)
    ensures
        match r {
            Ok(d) => split_spec(content@) matches Ok((y, b)) && yaml_document(y) matches Ok(meta)
                && state_matches(meta, b, d),
            Err(ParseError::YamlError(m)) => split_spec(content@) matches Ok((y, b)) && (
            yaml_document(y) == Err::<Json, Seq<char>>(m@) || (yaml_document(y) matches Ok(meta)
                && !state_shape_ok(meta) && m@ == shape_error_text())),
            Err(e) => split_spec(content@) == Err::<(Seq<char>, Seq<char>), _>(e),
        },
{
    match parse_frontmatter(content) {
        Ok(doc) => state_from_document(doc),
        Err(e) => Err(e),
    }
}

} // verus!
