//! PLAN.md: the frontmatter of a plan and its body.
use vstd::prelude::*;

use super::frontmatter::{parse_frontmatter, split_spec, Document};
use super::ParseError;
use crate::json::{
    bool_field, find_field, lookup, opt_bool, opt_str, opt_str_list, opt_string_view, opt_value,
    str_field, str_list_field, strings_view, take_value_field, yaml_document, Json,
};
use crate::text::{chars_of, parse_i64, parse_i64_spec};

verus! {

/// Complete parsed data from a PLAN.md file.
#[derive(Debug)]
pub struct PlanMdData {
    /// Phase identifier (e.g., "01-backend-foundation")
    pub phase: Option<String>,
    /// Plan number
    pub plan: Option<i64>,
    /// Plan type (e.g., "standard", "tdd")
    pub plan_type: Option<String>,
    /// Wave number for parallel execution
    pub wave: Option<i64>,
    /// Dependencies on other plans
    pub depends_on: Vec<String>,
    /// List of files this plan modifies
    pub files_modified: Vec<String>,
    /// Whether execution is autonomous
    pub autonomous: bool,
    /// Requirement IDs this plan addresses
    pub requirements: Vec<String>,
    /// Must-have criteria (preserved as a JSON value)
    pub must_haves: Option<Json>,
    /// Body content after frontmatter
    pub body: String,
}

/// A number field that may be written as a number or as text: an integer
/// that fits `i64`, or a text that `i64::from_str` reads; otherwise `None`.
pub open spec fn number_value(v: Option<Json>) -> Option<i64> {
    match opt_value(v) {
        Some(Json::Number(n)) => n.int_value(),
        Some(Json::Str(s)) => parse_i64_spec(s@),
        _ => None,
    }
}

/// A list field, empty when absent or `null`.
pub open spec fn list_or_empty(v: Result<Option<Seq<Seq<char>>>, ()>) -> Seq<Seq<char>> {
    match v {
        Ok(Some(l)) => l,
        _ => Seq::empty(),
    }
}

/// The frontmatter can be read into the PLAN.md fields.
pub open spec fn plan_shape_ok(meta: Json) -> bool {
    match meta {
        Json::Object(e) => {
            &&& opt_str(lookup(e@, "phase"@)) is Ok
            &&& opt_str(lookup(e@, "type"@)) is Ok
            &&& opt_str_list(lookup(e@, "depends_on"@)) is Ok
            &&& opt_str_list(lookup(e@, "files_modified"@)) is Ok
            &&& opt_bool(lookup(e@, "autonomous"@)) is Ok
            &&& opt_str_list(lookup(e@, "requirements"@)) is Ok
        },
        _ => false,
    }
}

/// `d` holds what the frontmatter `meta` and the body `body` say.
pub open spec fn plan_matches(meta: Json, body: Seq<char>, d: PlanMdData) -> bool {
    &&& plan_shape_ok(meta)
    &&& meta matches Json::Object(e)
    &&& opt_str(lookup(e@, "phase"@)) == Ok::<_, ()>(opt_string_view(d.phase))
    &&& d.plan == number_value(lookup(e@, "plan"@))
    &&& opt_str(lookup(e@, "type"@)) == Ok::<_, ()>(opt_string_view(d.plan_type))
    &&& d.wave == number_value(lookup(e@, "wave"@))
    &&& strings_view(d.depends_on@) == list_or_empty(opt_str_list(lookup(e@, "depends_on"@)))
    &&& strings_view(d.files_modified@) == list_or_empty(
        opt_str_list(lookup(e@, "files_modified"@)),
    )
    &&& d.autonomous == (opt_bool(lookup(e@, "autonomous"@)) == Ok::<_, ()>(Some(true)))
    &&& strings_view(d.requirements@) == list_or_empty(
        opt_str_list(lookup(e@, "requirements"@)),
    )
    &&& d.must_haves == opt_value(lookup(e@, "must_haves"@))
    &&& d.body@ == body
}

/// A number field of the frontmatter entries (see `number_value`).
pub fn number_field(entries: &Vec<(String, Json)>, key: &str) -> (r: Option<i64>)
    ensures
        r == number_value(lookup(entries@, key@)),
{
    let k = chars_of(key);
    match find_field(entries, &k) {
        None => None,
        Some(i) => match &entries[i].1 {
            Json::Number(n) => n.as_i64(),
            Json::Str(s) => {
                let c = chars_of(s.as_str());
                parse_i64(&c)
            },
            _ => None,
        },
    }
}

fn list_or_empty_exec(v: Option<Vec<String>>) -> (r: Vec<String>)
    ensures
        match v {
            Some(l) => r@ == l@,
            None => r@.len() == 0,
        },
{
    match v {
        Some(l) => l,
        None => Vec::new(),
    }
}

/// Build the PLAN.md data from a parsed document.
pub fn plan_from_document(doc: Document) -> (r: Result<PlanMdData, ParseError>)
    ensures
        match r {
            Ok(d) => plan_matches(doc.metadata, doc.content@, d),
            Err(ParseError::YamlError(m)) => !plan_shape_ok(doc.metadata) && m@
                == super::state_md::shape_error_text(),
            Err(_) => false,
        },
{
    proof {
        reveal_strlit("frontmatter fields do not have the expected types");
    }
    let ghost meta = doc.metadata;
    let ghost body0 = doc.content@;
    let Document { metadata, content } = doc;
    let mut e = match metadata {
        Json::Object(e) => e,
        _ => {
            return Err(
                ParseError::YamlError(
                    String::from_str("frontmatter fields do not have the expected types"),
                ),
            );
        },
    };
    let ghost e0 = e@;
    let phase = str_field(&e, "phase");
    let plan_type = str_field(&e, "type");
    let depends_on = str_list_field(&e, "depends_on");
    let files_modified = str_list_field(&e, "files_modified");
    let autonomous = bool_field(&e, "autonomous");
    let requirements = str_list_field(&e, "requirements");
    let plan = number_field(&e, "plan");
    let wave = number_field(&e, "wave");
    match (phase, plan_type, depends_on, files_modified, autonomous, requirements) {
        (Ok(phase), Ok(plan_type), Ok(depends_on), Ok(files_modified), Ok(autonomous), Ok(
            requirements,
        )) => {
            let must_haves = take_value_field(&mut e, "must_haves");
            let autonomous = match autonomous {
                Some(true) => true,
                _ => false,
            };
            let d = PlanMdData {
                    phase,
                    plan,
                    plan_type,
                    wave,
                    depends_on: list_or_empty_exec(depends_on),
                    files_modified: list_or_empty_exec(files_modified),
                    autonomous,
                    requirements: list_or_empty_exec(requirements),
                    must_haves,
                    body: content,
                };
            assert(meta matches Json::Object(x) && x@ == e0);
            assert(plan_shape_ok(meta));
            assert(d.autonomous == (opt_bool(lookup(e0, "autonomous"@)) == Ok::<_, ()>(
                Some(true),
            )));
            assert(strings_view(d.depends_on@) == list_or_empty(
                opt_str_list(lookup(e0, "depends_on"@)),
            ));
            assert(d.must_haves == opt_value(lookup(e0, "must_haves"@)));
            assert(d.body@ == body0);
            assert(d.plan == number_value(lookup(e0, "plan"@)));
            assert(opt_str(lookup(e0, "phase"@)) == Ok::<_, ()>(opt_string_view(d.phase)));
            assert(strings_view(d.requirements@) == list_or_empty(
                opt_str_list(lookup(e0, "requirements"@)),
            ));
            assert(opt_str(lookup(e0, "type"@)) == Ok::<_, ()>(opt_string_view(d.plan_type)));
            assert(d.wave == number_value(lookup(e0, "wave"@)));
            assert(strings_view(d.files_modified@) == list_or_empty(
                opt_str_list(lookup(e0, "files_modified"@)),
            ));
            assert(plan_matches(meta, body0, d));
            Ok(d)
        },
        _ => Err(
            ParseError::YamlError(
                String::from_str("frontmatter fields do not have the expected types"),
            ),
        ),
    }
}

/// Parse a PLAN.md file content into structured data.
pub fn parse_plan_md(content: &str) -> (r: Result<PlanMdData, ParseError>)
    ensures
        match r {
            Ok(d) => split_spec(content@) matches Ok((y, b)) && yaml_document(y) matches Ok(meta)
                && plan_matches(meta, b, d),
            Err(ParseError::YamlError(m)) => split_spec(content@) matches Ok((y, b)) && (
            yaml_document(y) == Err::<Json, Seq<char>>(m@) || (yaml_document(y) matches Ok(meta)
                && !plan_shape_ok(meta) && m@ == super::state_md::shape_error_text())),
            Err(e) => split_spec(content@) == Err::<(Seq<char>, Seq<char>), _>(e),
        },
{
    match parse_frontmatter(content) {
        Ok(doc) => plan_from_document(doc),
        Err(e) => Err(e),
    }
}

} // verus!
