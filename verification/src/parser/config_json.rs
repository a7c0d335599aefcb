//! config.json: the project's GSD configuration.
use vstd::prelude::*;

use super::agent_history::is_blank;
use super::ParseError;
use crate::json::{
    bool_field, json_document, lookup, opt_bool, opt_str, opt_string_view, opt_value,
    parse_json_text, str_field, take_value_field, Json,
};
use crate::text::{chars_of, same_chars, trim};

verus! {

/// GSD project configuration from config.json.
#[derive(Debug)]
pub struct GsdConfig {
    pub mode: Option<String>,
    pub granularity: Option<String>,
    pub parallelization: Option<bool>,
    pub commit_docs: Option<bool>,
    pub model_profile: Option<String>,
    pub workflow: Option<Json>,
    pub planning: Option<Json>,
    pub gates: Option<Json>,
    pub safety: Option<Json>,
    /// The whole document, unknown fields included.
    pub raw: Json,
}

/// The document can be read into the configuration fields.
pub open spec fn config_shape_ok(doc: Json) -> bool {
    match doc {
        Json::Object(e) => {
            &&& opt_str(lookup(e@, "mode"@)) is Ok
            &&& opt_str(lookup(e@, "granularity"@)) is Ok
            &&& opt_bool(lookup(e@, "parallelization"@)) is Ok
            &&& opt_bool(lookup(e@, "commit_docs"@)) is Ok
            &&& opt_str(lookup(e@, "model_profile"@)) is Ok
        },
        _ => false,
    }
}

/// `c` holds the fields of the document `doc`, and `doc` itself as `raw`.
pub open spec fn config_matches(doc: Json, c: GsdConfig) -> bool {
    &&& config_shape_ok(doc)
    &&& doc matches Json::Object(e)
    &&& opt_str(lookup(e@, "mode"@)) == Ok::<_, ()>(opt_string_view(c.mode))
    &&& opt_str(lookup(e@, "granularity"@)) == Ok::<_, ()>(opt_string_view(c.granularity))
    &&& opt_bool(lookup(e@, "parallelization"@)) == Ok::<_, ()>(c.parallelization)
    &&& opt_bool(lookup(e@, "commit_docs"@)) == Ok::<_, ()>(c.commit_docs)
    &&& opt_str(lookup(e@, "model_profile"@)) == Ok::<_, ()>(opt_string_view(c.model_profile))
    &&& c.workflow == opt_value(lookup(e@, "workflow"@))
    &&& c.planning == opt_value(lookup(e@, "planning"@))
    &&& c.gates == opt_value(lookup(e@, "gates"@))
    &&& c.safety == opt_value(lookup(e@, "safety"@))
    &&& c.raw == doc
}

pub open spec fn config_shape_text() -> Seq<char> {
    "config fields do not have the expected types"@
}

pub open spec fn empty_config_text() -> Seq<char> {
    "config.json content is empty"@
}

/// Build the configuration from two copies of the parsed document: the
/// fields are taken out of `fields`, and `raw` is kept whole.
pub fn config_from_json(raw: Json, fields: Json) -> (r: Result<GsdConfig, ParseError>)
    requires
        raw == fields,
    ensures
        match r {
            Ok(c) => config_matches(raw, c),
            Err(e) => !config_shape_ok(raw) && (e matches ParseError::JsonError(m) && m@
                == config_shape_text()),
        },
{
    proof {
        reveal_strlit("config fields do not have the expected types");
    }
    let mut e = match fields {
        Json::Object(e) => e,
        _ => {
            return Err(
                ParseError::JsonError(
                    String::from_str("config fields do not have the expected types"),
                ),
            );
        },
    };
    let ghost e0 = e@;
    let mode = str_field(&e, "mode");
    let granularity = str_field(&e, "granularity");
    let parallelization = bool_field(&e, "parallelization");
    let commit_docs = bool_field(&e, "commit_docs");
    let model_profile = str_field(&e, "model_profile");
    match (mode, granularity, parallelization, commit_docs, model_profile) {
        (Ok(mode), Ok(granularity), Ok(parallelization), Ok(commit_docs), Ok(model_profile)) => {
            proof {
                reveal_strlit("workflow");
                reveal_strlit("planning");
                reveal_strlit("gates");
                reveal_strlit("safety");
                assert("workflow"@[0] == 'w' && "planning"@[0] == 'p' && "gates"@[0] == 'g'
                    && "safety"@[0] == 's');
            }
            let workflow = take_value_field(&mut e, "workflow");
            let planning = take_value_field(&mut e, "planning");
            let gates = take_value_field(&mut e, "gates");
            let safety = take_value_field(&mut e, "safety");
            let c = GsdConfig {
                mode,
                granularity,
                parallelization,
                commit_docs,
                model_profile,
                workflow,
                planning,
                gates,
                safety,
                raw,
            };
            assert(raw matches Json::Object(x) && x@ == e0);
            Ok(c)
        },
        _ => Err(
            ParseError::JsonError(String::from_str("config fields do not have the expected types")),
        ),
    }
}

/// Parse config.json content into a `GsdConfig`.
///
/// All known fields are extracted; the whole document is kept in `raw`.
pub fn parse_config_json(content: &str) -> (r: Result<GsdConfig, ParseError>)
    ensures
        trim(content@).len() == 0 ==> (r matches Err(ParseError::InvalidContent(m)) && m@
            == empty_config_text()),
        trim(content@).len() != 0 ==> match json_document(content@) {
            Err(m) => r matches Err(ParseError::JsonError(t)) && t@ == m,
            Ok(doc) => match r {
                Ok(c) => config_matches(doc, c),
                Err(e) => !config_shape_ok(doc) && (e matches ParseError::JsonError(m) && m@
                    == config_shape_text()),
            },
        },
{
    if is_blank(content) {
        proof {
            reveal_strlit("config.json content is empty");
        }
        return Err(ParseError::InvalidContent(String::from_str("config.json content is empty")));
    }
    let raw = match parse_json_text(content) {
        Ok(raw) => raw,
        Err(m) => {
            return Err(ParseError::JsonError(m));
        },
    };
    match parse_json_text(content) {
        Ok(fields) => config_from_json(raw, fields),
        Err(m) => Err(ParseError::JsonError(m)),
    }
}

/// The top-level fields that `GsdConfig` reads.
pub open spec fn is_known_config_field(k: Seq<char>) -> bool {
    ||| k == "mode"@
    ||| k == "granularity"@
    ||| k == "parallelization"@
    ||| k == "commit_docs"@
    ||| k == "model_profile"@
    ||| k == "workflow"@
    ||| k == "planning"@
    ||| k == "gates"@
    ||| k == "safety"@
}

/// The keys of the entries `e` that are not known fields, in entry order.
pub open spec fn unknown_keys(e: Seq<(String, Json)>) -> Seq<Seq<char>>
    decreases e.len(),
{
    if e.len() == 0 {
        Seq::empty()
    } else {
        let rest = unknown_keys(e.drop_last());
        let k = e.last().0@;
        if is_known_config_field(k) {
            rest
        } else {
            rest.push(k)
        }
    }
}

/// The unknown top-level fields of a config document (none when it is not
/// an object).
pub open spec fn unknown_config_fields_spec(doc: Json) -> Seq<Seq<char>> {
    match doc {
        Json::Object(e) => unknown_keys(e@),
        _ => Seq::empty(),
    }
}

fn is_known_config_field_exec(k: &String) -> (r: bool)
    ensures
        r == is_known_config_field(k@),
{
    let c = chars_of(k.as_str());
    same_chars(&c, &chars_of("mode")) || same_chars(&c, &chars_of("granularity"))
        || same_chars(&c, &chars_of("parallelization")) || same_chars(&c, &chars_of("commit_docs"))
        || same_chars(&c, &chars_of("model_profile")) || same_chars(&c, &chars_of("workflow"))
        || same_chars(&c, &chars_of("planning")) || same_chars(&c, &chars_of("gates"))
        || same_chars(&c, &chars_of("safety"))
}

/// The top-level fields of a config document that `GsdConfig` does not
/// know, in the order the document yields them; they are worth a warning,
/// but the configuration is read all the same.
pub fn unknown_config_fields(doc: &Json) -> (r: Vec<String>)
    ensures
        r@.map_values(|k: String| k@) == unknown_config_fields_spec(*doc),
{
    let mut out: Vec<String> = Vec::new();
    match doc {
        Json::Object(e) => {
            let mut i: usize = 0;
            while i < e.len()
                invariant
                    i <= e@.len(),
                    out@.map_values(|k: String| k@) == unknown_keys(e@.take(i as int)),
                decreases e@.len() - i,
            {
                proof {
                    assert(e@.take(i + 1).drop_last() =~= e@.take(i as int));
                }
                if !is_known_config_field_exec(&e[i].0) {
                    let ghost before = out@;
                    out.push(e[i].0.clone());
                    proof {
                        assert(out@.map_values(|k: String| k@) =~= before.map_values(
                            |k: String| k@,
                        ).push(e@[i as int].0@));
                    }
                }
                i = i + 1;
            }
            proof {
                assert(e@.take(e@.len() as int) =~= e@);
            }
        },
        _ => {},
    }
    out
}

} // verus!
