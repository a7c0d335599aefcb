//! agent-history.json: the record of agent sessions.
use vstd::prelude::*;

use super::ParseError;
use crate::json::{
    json_document, lookup, opt_str, opt_string_view, parse_json_text, str_field, Json,
};
use crate::text::{chars_of, lemma_skip_ws_bounds, skip_whitespace, trim};

verus! {

/// A single agent session record from agent-history.json.
#[derive(Debug)]
pub struct AgentSession {
    pub agent_id: Option<String>,
    pub agent_type: Option<String>,
    pub phase: Option<String>,
    pub plan: Option<String>,
    pub started_at: Option<String>,
    pub ended_at: Option<String>,
    /// The entries of the record besides the named fields.
    pub extra: Json,
}

/// Whether `k` names one of the session's own fields.
pub open spec fn is_session_key(k: Seq<char>) -> bool {
    ||| k == "agent_id"@
    ||| k == "agent_type"@
    ||| k == "phase"@
    ||| k == "plan"@
    ||| k == "started_at"@
    ||| k == "ended_at"@
}

/// The entries of a record that are not the session's own fields, in order.
pub open spec fn extra_entries(e: Seq<(String, Json)>) -> Seq<(String, Json)>
    decreases e.len(),
{
    if e.len() == 0 {
        Seq::empty()
    } else {
        let rest = extra_entries(e.drop_last());
        if is_session_key(e.last().0@) {
            rest
        } else {
            rest.push(e.last())
        }
    }
}

/// A record can be read as a session: a mapping whose named fields are
/// strings (or absent or null).
pub open spec fn session_ok(item: Json) -> bool {
    match item {
        Json::Object(e) => {
            &&& opt_str(lookup(e@, "agent_id"@)) is Ok
            &&& opt_str(lookup(e@, "agent_type"@)) is Ok
            &&& opt_str(lookup(e@, "phase"@)) is Ok
            &&& opt_str(lookup(e@, "plan"@)) is Ok
            &&& opt_str(lookup(e@, "started_at"@)) is Ok
            &&& opt_str(lookup(e@, "ended_at"@)) is Ok
        },
        _ => false,
    }
}

/// `s` holds what the record `item` says.
pub open spec fn session_matches(item: Json, s: AgentSession) -> bool {
    &&& session_ok(item)
    &&& item matches Json::Object(e)
    &&& opt_str(lookup(e@, "agent_id"@)) == Ok::<_, ()>(opt_string_view(s.agent_id))
    &&& opt_str(lookup(e@, "agent_type"@)) == Ok::<_, ()>(opt_string_view(s.agent_type))
    &&& opt_str(lookup(e@, "phase"@)) == Ok::<_, ()>(opt_string_view(s.phase))
    &&& opt_str(lookup(e@, "plan"@)) == Ok::<_, ()>(opt_string_view(s.plan))
    &&& opt_str(lookup(e@, "started_at"@)) == Ok::<_, ()>(opt_string_view(s.started_at))
    &&& opt_str(lookup(e@, "ended_at"@)) == Ok::<_, ()>(opt_string_view(s.ended_at))
    &&& s.extra matches Json::Object(x) && x@ == extra_entries(e@)
}

/// The records of a history: the document itself when it is an array, else
/// the `sessions` array of a mapping, or (only when there is no `sessions`)
/// its `history` array.
pub open spec fn history_items(raw: Json) -> Option<Seq<Json>> {
    match raw {
        Json::Array(a) => Some(a@),
        Json::Object(e) => match lookup(e@, "sessions"@) {
            Some(Json::Array(a)) => Some(a@),
            Some(_) => None,
            None => match lookup(e@, "history"@) {
                Some(Json::Array(a)) => Some(a@),
                _ => None,
            },
        },
        _ => None,
    }
}

pub open spec fn session_shape_text() -> Seq<char> {
    "session fields do not have the expected types"@
}

pub open spec fn empty_history_text() -> Seq<char> {
    "agent-history.json content is empty"@
}

pub open spec fn no_sessions_text() -> Seq<char> {
    "agent-history.json object has no 'sessions' or 'history' array"@
}

pub open spec fn not_container_text() -> Seq<char> {
    "agent-history.json must be an array or object"@
}

/// The sessions read from a history document, or the error.
pub open spec fn history_result_ok(raw: Json, r: Seq<AgentSession>) -> bool {
    history_items(raw) matches Some(items) && items.len() == r.len() && forall|i: int|
        0 <= i < items.len() ==> session_matches(items[i], #[trigger] r[i])
}

/// Every record can be read as a session.
pub open spec fn all_sessions_ok(items: Seq<Json>) -> bool {
    forall|i: int| 0 <= i < items.len() ==> session_ok(#[trigger] items[i])
}

pub open spec fn history_error(raw: Json, e: ParseError) -> bool {
    match history_items(raw) {
        Some(items) => !all_sessions_ok(items) && (e matches ParseError::JsonError(m) && m@ == session_shape_text()),
        None => if raw is Object {
            e matches ParseError::InvalidContent(m) && m@ == no_sessions_text()
        } else {
            e matches ParseError::InvalidContent(m) && m@ == not_container_text()
        },
    }
}

/// The entries of `e` that are not the session's own fields.
fn drop_session_keys(e: Vec<(String, Json)>) -> (r: Vec<(String, Json)>)
    ensures
        r@ == extra_entries(e@),
{
    let ghost orig = e@;
    let mut e = e;
    let mut out: Vec<(String, Json)> = Vec::new();
    let mut i: usize = 0;
    let n = e.len();
    while i < n
        invariant
            n == orig.len(),
            i <= n,
            e@ == orig.skip(i as int),
            out@ == extra_entries(orig.take(i as int)),
        decreases n - i,
    {
        let entry = e.remove(0);
        proof {
            assert(orig.take(i + 1).drop_last() =~= orig.take(i as int));
            assert(orig.take(i + 1).last() == entry);
            assert(e@ =~= orig.skip(i + 1));
        }
        let k = chars_of(entry.0.as_str());
        let known = crate::text::same_chars(&k, &chars_of("agent_id")) || crate::text::same_chars(
            &k,
            &chars_of("agent_type"),
        ) || crate::text::same_chars(&k, &chars_of("phase")) || crate::text::same_chars(
            &k,
            &chars_of("plan"),
        ) || crate::text::same_chars(&k, &chars_of("started_at")) || crate::text::same_chars(
            &k,
            &chars_of("ended_at"),
        );
        if !known {
            out.push(entry);
        }
        i = i + 1;
    }
    proof {
        assert(orig.take(n as int) =~= orig);
    }
    out
}

/// Read one record as a session.
pub fn session_from_json(item: Json) -> (r: Option<AgentSession>)
    ensures
        match r {
            Some(s) => session_matches(item, s),
            None => !session_ok(item),
        },
{
    let e = match item {
        Json::Object(e) => e,
        _ => {
            return None;
        },
    };
    let agent_id = str_field(&e, "agent_id");
    let agent_type = str_field(&e, "agent_type");
    let phase = str_field(&e, "phase");
    let plan = str_field(&e, "plan");
    let started_at = str_field(&e, "started_at");
    let ended_at = str_field(&e, "ended_at");
    match (agent_id, agent_type, phase, plan, started_at, ended_at) {
        (Ok(agent_id), Ok(agent_type), Ok(phase), Ok(plan), Ok(started_at), Ok(ended_at)) => {
            let extra = Json::Object(drop_session_keys(e));
            Some(AgentSession { agent_id, agent_type, phase, plan, started_at, ended_at, extra })
        },
        _ => None,
    }
}

/// Read the records of `items` as sessions.
fn sessions_from_items(items: Vec<Json>) -> (r: Option<Vec<AgentSession>>)
    ensures
        match r {
            Some(v) => v@.len() == items@.len() && forall|i: int|
                0 <= i < items@.len() ==> session_matches(items@[i], #[trigger] v@[i]),
            None => !all_sessions_ok(items@),
        },
{
    let ghost orig = items@;
    let mut rest = items;
    let mut out: Vec<AgentSession> = Vec::new();
    let n = rest.len();
    let mut i: usize = 0;
    let mut failed = false;
    while i < n
        invariant_except_break
            rest@ == orig.skip(i as int),
            !failed,
        invariant
            n == orig.len(),
            i <= n,
            out@.len() == i,
            forall|j: int| 0 <= j < i ==> session_matches(orig[j], #[trigger] out@[j]),
        ensures
            failed ==> i < n && !session_ok(orig[i as int]),
            !failed ==> i == n,
        decreases n - i,
    {
        let item = rest.remove(0);
        proof {
            assert(item == orig[i as int]);
            assert(rest@ =~= orig.skip(i + 1));
        }
        match session_from_json(item) {
            Some(s) => {
                out.push(s);
            },
            None => {
                failed = true;
                break;
            },
        }
        i = i + 1;
    }
    if failed {
        assert(!session_ok(orig[i as int]));
        None
    } else {
        Some(out)
    }
}

/// The records of a parsed history document (see `history_items`).
fn history_items_exec(raw: Json) -> (r: Result<Vec<Json>, ParseError>)
    ensures
        match r {
            Ok(items) => history_items(raw) == Some(items@),
            Err(e) => history_items(raw) is None && if raw is Object {
                e matches ParseError::InvalidContent(m) && m@ == no_sessions_text()
            } else {
                e matches ParseError::InvalidContent(m) && m@ == not_container_text()
            },
        },
{
    proof {
        reveal_strlit("agent-history.json object has no 'sessions' or 'history' array");
        reveal_strlit("agent-history.json must be an array or object");
    }
    match raw {
        Json::Array(a) => Ok(a),
        Json::Object(e) => {
            let mut e = e;
            let sk = chars_of("sessions");
            match crate::json::take_field(&mut e, &sk) {
                Some(Json::Array(a)) => Ok(a),
                Some(_) => Err(
                    ParseError::InvalidContent(
                        String::from_str(
                            "agent-history.json object has no 'sessions' or 'history' array",
                        ),
                    ),
                ),
                None => {
                    let hk = chars_of("history");
                    match crate::json::take_field(&mut e, &hk) {
                        Some(Json::Array(a)) => Ok(a),
                        _ => Err(
                            ParseError::InvalidContent(
                                String::from_str(
                                    "agent-history.json object has no 'sessions' or 'history' array",
                                ),
                            ),
                        ),
                    }
                },
            }
        },
        _ => Err(
            ParseError::InvalidContent(
                String::from_str("agent-history.json must be an array or object"),
            ),
        ),
    }
}

/// Read the sessions of a parsed history document.
pub fn sessions_from_json(raw: Json) -> (r: Result<Vec<AgentSession>, ParseError>)
    ensures
        match r {
            Ok(v) => history_result_ok(raw, v@),
            Err(e) => history_error(raw, e),
        },
{
    proof {
        reveal_strlit("session fields do not have the expected types");
    }
    let ghost raw0 = raw;
    let items = match history_items_exec(raw) {
        Ok(items) => items,
        Err(e) => {
            return Err(e);
        },
    };
    let ghost it = items@;
    match sessions_from_items(items) {
        Some(v) => {
            assert(history_result_ok(raw0, v@));
            Ok(v)
        },
        None => {
            let err = ParseError::JsonError(
                String::from_str("session fields do not have the expected types"),
            );
            assert(history_error(raw0, err));
            Err(err)
        },
    }
}

/// Whether a text is empty after trimming whitespace.
pub fn is_blank(content: &str) -> (r: bool)
    ensures
        r == (trim(content@).len() == 0),
{
    let c = chars_of(content);
    let a = skip_whitespace(&c, 0);
    proof {
        lemma_skip_ws_bounds(c@, 0);
        crate::text::lemma_rskip_ws_bounds(c@, c@.len() as int, a as int);
    }
    a == c.len()
}

/// Parse agent-history.json content into a list of session records.
///
/// The file may hold an array of sessions, or an object with a `sessions`
/// (or `history`) array.
pub fn parse_agent_history(content: &str) -> (r: Result<Vec<AgentSession>, ParseError>)
    ensures
        trim(content@).len() == 0 ==> (r matches Err(ParseError::InvalidContent(m)) && m@
            == empty_history_text()),
        trim(content@).len() != 0 ==> match json_document(content@) {
            Err(m) => r matches Err(ParseError::JsonError(t)) && t@ == m,
            Ok(raw) => match r {
                Ok(v) => history_result_ok(raw, v@),
                Err(e) => history_error(raw, e),
            },
        },
{
    if is_blank(content) {
        proof {
            reveal_strlit("agent-history.json content is empty");
        }
        return Err(ParseError::InvalidContent(String::from_str("agent-history.json content is empty")));
    }
    match parse_json_text(content) {
        Ok(raw) => sessions_from_json(raw),
        Err(m) => Err(ParseError::JsonError(m)),
    }
}

} // verus!
