//! The query text and bound values of the filtered history queries, and the
//! field merging of a project update.
use vstd::prelude::*;

use super::models::Project;
use crate::json::{opt_string_view, strings_view};
use crate::parser::summary::{join, join_strings};
use crate::text::{decimal, decimal_chars, string_of};

verus! {

/// Filter parameters for execution runs.
pub struct RunFilters {
    pub phase: Option<String>,
    pub plan: Option<String>,
    pub status: Option<String>,
    pub from: Option<String>,
    pub to: Option<String>,
    pub limit: i64,
    pub offset: i64,
}

/// Pagination metadata.
#[derive(Debug, Clone, Copy, PartialEq, Eq, Structural)]
pub struct PaginationMeta {
    pub total: i64,
    pub limit: i64,
    pub offset: i64,
}

/// Filter parameters for agent sessions.
pub struct SessionFilters {
    pub agent_type: Option<String>,
    pub phase: Option<String>,
    pub from: Option<String>,
    pub to: Option<String>,
}

/// The conditions of a WHERE clause for the first `k` filters:
/// `project_id = ?1`, then the clause of each present filter followed by the
/// number of its parameter, numbered on from 2.
pub open spec fn conditions_upto(present: Seq<bool>, clauses: Seq<Seq<char>>, k: int) -> Seq<
    Seq<char>,
>
    decreases k,
{
    if k <= 0 {
        seq!["project_id = ?1"@]
    } else {
        let prev = conditions_upto(present, clauses, k - 1);
        if present[k - 1] {
            prev.push(clauses[k - 1] + decimal((prev.len() + 1) as nat))
        } else {
            prev
        }
    }
}

pub open spec fn conditions(present: Seq<bool>, clauses: Seq<Seq<char>>) -> Seq<Seq<char>> {
    conditions_upto(present, clauses, present.len() as int)
}

/// The present values among `values`, in order.
pub open spec fn present_values(values: Seq<Option<Seq<char>>>) -> Seq<Seq<char>>
    decreases values.len(),
{
    if values.len() == 0 {
        Seq::empty()
    } else {
        let prev = present_values(values.drop_last());
        match values.last() {
            Some(v) => prev.push(v),
            None => prev,
        }
    }
}

pub open spec fn run_clauses() -> Seq<Seq<char>> {
    seq![
        "phase_number = ?"@,
        "plan_number = ?"@,
        "status = ?"@,
        "created_at >= ?"@,
        "created_at <= ?"@,
    ]
}

pub open spec fn run_values(f: RunFilters) -> Seq<Option<Seq<char>>> {
    seq![
        opt_string_view(f.phase),
        opt_string_view(f.plan),
        opt_string_view(f.status),
        opt_string_view(f.from),
        opt_string_view(f.to),
    ]
}

pub open spec fn session_clauses() -> Seq<Seq<char>> {
    seq!["agent_type = ?"@, "phase_number = ?"@, "started_at >= ?"@, "started_at <= ?"@]
}

pub open spec fn session_values(f: SessionFilters) -> Seq<Option<Seq<char>>> {
    seq![
        opt_string_view(f.agent_type),
        opt_string_view(f.phase),
        opt_string_view(f.from),
        opt_string_view(f.to),
    ]
}

pub open spec fn presence(values: Seq<Option<Seq<char>>>) -> Seq<bool> {
    values.map_values(|v: Option<Seq<char>>| v is Some)
}

/// The WHERE clause of the run queries.
pub open spec fn run_where(f: RunFilters) -> Seq<char> {
    join(conditions(presence(run_values(f)), run_clauses()), " AND "@)
}

/// The WHERE clause of the session query.
pub open spec fn session_where(f: SessionFilters) -> Seq<char> {
    join(conditions(presence(session_values(f)), session_clauses()), " AND "@)
}

fn numbered(clause: &str, idx: u64) -> (r: String)
    ensures
        r@ == clause@ + decimal(idx as nat),
{
    let d = decimal_chars(idx);
    String::from_str(clause).concat(string_of(&d).as_str())
}

fn build_conditions(values: &Vec<Option<String>>, clauses: &Vec<String>) -> (r: Vec<String>)
    requires
        values@.len() == clauses@.len(),
        values@.len() < 100,
    ensures
        strings_view(r@) == conditions(
            presence(values@.map_values(|v: Option<String>| opt_string_view(v))),
            strings_view(clauses@),
        ),
        r@.len() <= values@.len() + 1,
{
    let ghost pres = presence(values@.map_values(|v: Option<String>| opt_string_view(v)));
    let ghost cl = strings_view(clauses@);
    let mut out: Vec<String> = Vec::new();
    out.push(String::from_str("project_id = ?1"));
    proof {
        reveal_strlit("project_id = ?1");
        assert(strings_view(out@) =~= conditions_upto(pres, cl, 0));
    }
    let mut i: usize = 0;
    while i < values.len()
        invariant
            values@.len() == clauses@.len(),
            values@.len() < 100,
            i <= values@.len(),
            pres == presence(values@.map_values(|v: Option<String>| opt_string_view(v))),
            cl == strings_view(clauses@),
            strings_view(out@) == conditions_upto(pres, cl, i as int),
            1 <= out@.len() <= i + 1,
        decreases values@.len() - i,
    {
        assert(pres[i as int] == (values@[i as int] is Some));
        if values[i].is_some() {
            let idx = (out.len() + 1) as u64;
            let c = numbered(clauses[i].as_str(), idx);
            let ghost before = out@;
            out.push(c);
            proof {
                assert(strings_view(out@) =~= strings_view(before).push(c@));
            }
        }
        i = i + 1;
    }
    out
}

fn present_values_exec(values: &Vec<Option<String>>) -> (r: Vec<String>)
    ensures
        strings_view(r@) == present_values(
            values@.map_values(|v: Option<String>| opt_string_view(v)),
        ),
{
    let ghost vs = values@.map_values(|v: Option<String>| opt_string_view(v));
    let mut out: Vec<String> = Vec::new();
    let mut i: usize = 0;
    while i < values.len()
        invariant
            i <= values@.len(),
            vs == values@.map_values(|v: Option<String>| opt_string_view(v)),
            strings_view(out@) == present_values(vs.take(i as int)),
        decreases values@.len() - i,
    {
        proof {
            assert(vs.take(i + 1).drop_last() =~= vs.take(i as int));
        }
        match &values[i] {
            Some(v) => {
                let ghost before = out@;
                out.push(v.clone());
                proof {
                    assert(strings_view(out@) =~= strings_view(before).push(v@));
                }
            },
            None => {},
        }
        i = i + 1;
    }
    proof {
        assert(vs.take(vs.len() as int) =~= vs);
    }
    out
}

fn clone_opt(o: &Option<String>) -> (r: Option<String>)
    ensures
        opt_string_view(r) == opt_string_view(*o),
{
    match o {
        Some(s) => Some(s.clone()),
        None => None,
    }
}

fn run_value_list(f: &RunFilters) -> (r: Vec<Option<String>>)
    ensures
        r@.map_values(|v: Option<String>| opt_string_view(v)) == run_values(*f),
        r@.len() == 5,
{
    let mut v: Vec<Option<String>> = Vec::new();
    v.push(clone_opt(&f.phase));
    v.push(clone_opt(&f.plan));
    v.push(clone_opt(&f.status));
    v.push(clone_opt(&f.from));
    v.push(clone_opt(&f.to));
    proof {
        assert(v@.map_values(|v: Option<String>| opt_string_view(v)) =~= run_values(*f));
    }
    v
}

fn session_value_list(f: &SessionFilters) -> (r: Vec<Option<String>>)
    ensures
        r@.map_values(|v: Option<String>| opt_string_view(v)) == session_values(*f),
        r@.len() == 4,
{
    let mut v: Vec<Option<String>> = Vec::new();
    v.push(clone_opt(&f.agent_type));
    v.push(clone_opt(&f.phase));
    v.push(clone_opt(&f.from));
    v.push(clone_opt(&f.to));
    proof {
        assert(v@.map_values(|v: Option<String>| opt_string_view(v)) =~= session_values(*f));
    }
    v
}

fn run_clause_list() -> (r: Vec<String>)
    ensures
        strings_view(r@) == run_clauses(),
        r@.len() == 5,
{
    let mut v: Vec<String> = Vec::new();
    v.push(String::from_str("phase_number = ?"));
    v.push(String::from_str("plan_number = ?"));
    v.push(String::from_str("status = ?"));
    v.push(String::from_str("created_at >= ?"));
    v.push(String::from_str("created_at <= ?"));
    proof {
        assert(strings_view(v@) =~= run_clauses());
    }
    v
}

fn session_clause_list() -> (r: Vec<String>)
    ensures
        strings_view(r@) == session_clauses(),
        r@.len() == 4,
{
    let mut v: Vec<String> = Vec::new();
    v.push(String::from_str("agent_type = ?"));
    v.push(String::from_str("phase_number = ?"));
    v.push(String::from_str("started_at >= ?"));
    v.push(String::from_str("started_at <= ?"));
    proof {
        assert(strings_view(v@) =~= session_clauses());
    }
    v
}

/// The conditions of the run queries, in the order their values are bound.
pub fn run_conditions(f: &RunFilters) -> (r: Vec<String>)
    ensures
        strings_view(r@) == conditions(presence(run_values(*f)), run_clauses()),
        r@.len() <= 6,
{
    let values = run_value_list(f);
    let clauses = run_clause_list();
    build_conditions(&values, &clauses)
}

/// The values bound after the project id, in order: the present filters.
pub fn run_bind_values(f: &RunFilters) -> (r: Vec<String>)
    ensures
        strings_view(r@) == present_values(run_values(*f)),
{
    let values = run_value_list(f);
    present_values_exec(&values)
}

/// The query that counts the filtered runs.
pub fn runs_count_sql(f: &RunFilters) -> (r: String)
    ensures
        r@ == "SELECT COUNT(*) FROM execution_runs WHERE "@ + run_where(*f),
{
    let conds = run_conditions(f);
    let w = join_strings(&conds, " AND ");
    String::from_str("SELECT COUNT(*) FROM execution_runs WHERE ").concat(w.as_str())
}

/// The query that fetches a page of the filtered runs, newest first; the
/// limit and offset are the two parameters after the filters.
pub fn runs_data_sql(f: &RunFilters) -> (r: String)
    ensures
        r@ == "SELECT * FROM execution_runs WHERE "@ + run_where(*f) + " ORDER BY created_at DESC LIMIT ?"@
            + decimal((conditions(presence(run_values(*f)), run_clauses()).len() + 1) as nat)
            + " OFFSET ?"@ + decimal(
            (conditions(presence(run_values(*f)), run_clauses()).len() + 2) as nat,
        ),
{
    let conds = run_conditions(f);
    let n = conds.len() as u64;
    let w = join_strings(&conds, " AND ");
    let limit_idx = decimal_chars(n + 1);
    let offset_idx = decimal_chars(n + 2);
    String::from_str("SELECT * FROM execution_runs WHERE ").concat(w.as_str()).concat(
        " ORDER BY created_at DESC LIMIT ?",
    ).concat(string_of(&limit_idx).as_str()).concat(" OFFSET ?").concat(
        string_of(&offset_idx).as_str(),
    )
}

/// The query that fetches the filtered agent sessions, in start order.
pub fn sessions_sql(f: &SessionFilters) -> (r: String)
    ensures
        r@ == "SELECT * FROM agent_sessions WHERE "@ + session_where(*f) + " ORDER BY started_at"@,
{
    let values = session_value_list(f);
    let clauses = session_clause_list();
    let conds = build_conditions(&values, &clauses);
    let w = join_strings(&conds, " AND ");
    String::from_str("SELECT * FROM agent_sessions WHERE ").concat(w.as_str()).concat(
        " ORDER BY started_at",
    )
}

/// The values bound after the project id in the session query.
pub fn session_bind_values(f: &SessionFilters) -> (r: Vec<String>)
    ensures
        strings_view(r@) == present_values(session_values(*f)),
{
    let values = session_value_list(f);
    present_values_exec(&values)
}

/// The retention period used when a project sets none.
pub open spec fn default_retention_days() -> i64 {
    180
}

/// A project's retention period in days (180 when it sets none).
pub fn retention_days_or_default(days: Option<i64>) -> (r: i64)
    ensures
        r == match days {
            Some(d) => d,
            None => default_retention_days(),
        },
{
    match days {
        Some(d) => d,
        None => 180,
    }
}

/// The name and retention period a project update stores: each given value,
/// else the existing one (a project without a retention period gets 180).
pub fn merged_project_update(existing: &Project, name: Option<&str>, retention_days: Option<i64>) -> (r: (
    String,
    i64,
))
    ensures
        r.0@ == match name {
            Some(n) => n@,
            None => existing.name@,
        },
        r.1 == match retention_days {
            Some(d) => d,
            None => match existing.retention_days {
                Some(d) => d,
                None => default_retention_days(),
            },
        },
{
    let new_name = match name {
        Some(n) => String::from_str(n),
        None => existing.name.clone(),
    };
    let new_retention = match retention_days {
        Some(d) => d,
        None => retention_days_or_default(existing.retention_days),
    };
    (new_name, new_retention)
}

/// The number of present values among the first `j`.
pub open spec fn count_present(v: Seq<Option<Seq<char>>>, j: int) -> nat
    decreases j,
{
    if j <= 0 {
        0
    } else {
        count_present(v, j - 1) + if v[j - 1] is Some {
            1nat
        } else {
            0nat
        }
    }
}

proof fn lemma_count_present_mono(v: Seq<Option<Seq<char>>>, j: int, m: int)
    requires
        0 <= j <= m,
    ensures
        count_present(v, j) <= count_present(v, m),
        j < m && v[j] is Some ==> count_present(v, j) < count_present(v, m),
    decreases m - j,
{
    if j < m {
        lemma_count_present_mono(v, j, m - 1);
        if j == m - 1 {
        }
    }
}

proof fn lemma_count_present_prefix(v: Seq<Option<Seq<char>>>, j: int)
    requires
        0 <= j < v.len(),
    ensures
        count_present(v.drop_last(), j) == count_present(v, j),
    decreases j,
{
    if j > 0 {
        lemma_count_present_prefix(v, j - 1);
    }
}

/// Where each present filter's condition stands: the filter at `j`, when
/// present, is condition `count_present(v, j) + 1` and takes parameter
/// `count_present(v, j) + 2`.
proof fn lemma_conditions_upto(v: Seq<Option<Seq<char>>>, cl: Seq<Seq<char>>, n: int)
    requires
        0 <= n <= v.len(),
        cl.len() == v.len(),
    ensures
        conditions_upto(presence(v), cl, n).len() == 1 + count_present(v, n),
        forall|j: int|
            0 <= j < n && v[j] is Some ==> #[trigger] conditions_upto(presence(v), cl, n)[count_present(
                v,
                j,
            ) + 1int] == cl[j] + decimal((count_present(v, j) + 2) as nat),
    decreases n,
{
    if n > 0 {
        lemma_conditions_upto(v, cl, n - 1);
        assert(presence(v)[n - 1] == (v[n - 1] is Some));
        assert forall|j: int| 0 <= j < n && v[j] is Some implies #[trigger] conditions_upto(
            presence(v),
            cl,
            n,
        )[count_present(v, j) + 1int] == cl[j] + decimal((count_present(v, j) + 2) as nat) by {
            if j < n - 1 {
                lemma_count_present_mono(v, j, n - 1);
                assert(conditions_upto(presence(v), cl, n - 1)[count_present(v, j) + 1int] == cl[j]
                    + decimal((count_present(v, j) + 2) as nat));
            }
        }
    } else {
        assert(conditions_upto(presence(v), cl, n) =~= seq!["project_id = ?1"@]);
    }
}

/// An absent filter leaves no condition of its own: every condition after
/// the first begins with the clause of a present filter, and so differs
/// early from the clause of an absent one.
proof fn lemma_conditions_avoid(v: Seq<Option<Seq<char>>>, cl: Seq<Seq<char>>, n: int, clause: Seq<char>)
    requires
        0 <= n <= v.len(),
        cl.len() == v.len(),
        forall|m: int| 0 <= m < v.len() && v[m] is Some ==> differ_early(#[trigger] cl[m], clause),
    ensures
        forall|k: int|
            1 <= k < conditions_upto(presence(v), cl, n).len() ==> differ_early(
                #[trigger] conditions_upto(presence(v), cl, n)[k],
                clause,
            ),
    decreases n,
{
    if n > 0 {
        lemma_conditions_avoid(v, cl, n - 1, clause);
        assert(presence(v)[n - 1] == (v[n - 1] is Some));
        let prev = conditions_upto(presence(v), cl, n - 1);
        if v[n - 1] is Some {
            let x = cl[n - 1] + decimal((prev.len() + 1) as nat);
            assert(differ_early(cl[n - 1], clause));
            let t = choose|t: int|
                0 <= t < cl[n - 1].len() && t < clause.len() && cl[n - 1][t] != clause[t];
            assert(x[t] == cl[n - 1][t]);
            assert(differ_early(x, clause));
            assert forall|k: int|
                1 <= k < conditions_upto(presence(v), cl, n).len() implies differ_early(
                #[trigger] conditions_upto(presence(v), cl, n)[k],
                clause,
            ) by {
                if k < prev.len() {
                    assert(conditions_upto(presence(v), cl, n)[k] == prev[k]);
                } else {
                    assert(conditions_upto(presence(v), cl, n)[k] == x);
                }
            }
        }
    }
}

/// The bound values: the present filter at `j` is bound value
/// `count_present(v, j)`, and there are as many as present filters.
proof fn lemma_present_values(v: Seq<Option<Seq<char>>>)
    ensures
        present_values(v).len() == count_present(v, v.len() as int),
        forall|j: int|
            0 <= j < v.len() && v[j] is Some ==> #[trigger] present_values(v)[count_present(v, j) as int]
                == v[j]->0,
    decreases v.len(),
{
    if v.len() > 0 {
        let d = v.drop_last();
        lemma_present_values(d);
        assert forall|j: int| 0 <= j < d.len() implies count_present(d, j) == count_present(v, j) by {
            lemma_count_present_prefix(v, j);
        }
        lemma_count_present_prefix(v, d.len() as int);
        assert forall|j: int| 0 <= j < v.len() && v[j] is Some implies #[trigger] present_values(
            v,
        )[count_present(v, j) as int] == v[j]->0 by {
            if j < v.len() - 1 {
                lemma_count_present_prefix(v, j);
                lemma_count_present_mono(v, j, v.len() - 1);
                assert(d[j] == v[j]);
                assert(present_values(d)[count_present(d, j) as int] == d[j]->0);
            }
        }
    }
}

/// The run conditions of `f` and the values bound after the project id.
pub open spec fn run_query_parts(f: RunFilters) -> (Seq<Seq<char>>, Seq<Seq<char>>) {
    (conditions(presence(run_values(f)), run_clauses()), present_values(run_values(f)))
}

/// A run filter `value` for the column clause `clause` (such as
/// `plan_number = ?`) is honoured by the conditions `c` and bound values
/// `b` of a query: there is a condition on that column exactly when the
/// filter is given, numbered by its place, and the value bound to its
/// parameter is the filter's value.
pub open spec fn filter_honoured(
    c: Seq<Seq<char>>,
    b: Seq<Seq<char>>,
    clause: Seq<char>,
    value: Option<Seq<char>>,
) -> bool {
    &&& (exists|k: int| 1 <= k < c.len() && #[trigger] c[k] == clause + decimal((k + 1) as nat))
        <==> value is Some
    &&& value matches Some(x) ==> exists|k: int|
        1 <= k < c.len() && #[trigger] c[k] == clause + decimal((k + 1) as nat) && b.len() == c.len()
            - 1 && b[k - 1] == x
}

/// Two clauses differ at a place within both.
pub open spec fn differ_early(a: Seq<char>, b: Seq<char>) -> bool {
    exists|t: int| 0 <= t < a.len() && t < b.len() && a[t] != b[t]
}

proof fn lemma_run_filter(f: RunFilters, j: int, clause: Seq<char>, value: Option<Seq<char>>)
    requires
        0 <= j < 5,
        run_values(f)[j] == value,
        run_clauses()[j] == clause,
        forall|m: int| 0 <= m < 5 && m != j ==> differ_early(#[trigger] run_clauses()[m], clause),
    ensures
        filter_honoured(run_query_parts(f).0, run_query_parts(f).1, clause, value),
{
    let v = run_values(f);
    let cl = run_clauses();
    let c = run_query_parts(f).0;
    let b = run_query_parts(f).1;
    lemma_conditions_upto(v, cl, 5);
    lemma_present_values(v);
    assert(c == conditions_upto(presence(v), cl, 5));
    if value is Some {
        let k: int = count_present(v, j) as int + 1;
        lemma_count_present_mono(v, j, 5);
        assert(c[k] == clause + decimal((k + 1) as nat));
        assert(b[k - 1] == value->0);
    } else {
        assert forall|m: int| 0 <= m < v.len() && v[m] is Some implies differ_early(
            #[trigger] cl[m],
            clause,
        ) by {
            assert(m != j);
        }
        lemma_conditions_avoid(v, cl, 5, clause);
        assert forall|k: int| 1 <= k < c.len() implies #[trigger] c[k] != clause + decimal(
            (k + 1) as nat,
        ) by {
            assert(differ_early(c[k], clause));
            let t = choose|t: int| 0 <= t < c[k].len() && t < clause.len() && c[k][t] != clause[t];
            assert((clause + decimal((k + 1) as nat))[t] == clause[t]);
        }
    }
}

/// The run queries filter on each column exactly when its filter is given,
/// and bind each filter's own value to its condition: the phase filter to
/// `phase_number`, the plan filter to `plan_number`, the status filter to
/// `status`, and the date bounds to `created_at`.
pub proof fn law_run_filters_honoured(f: RunFilters)
    ensures
        filter_honoured(
            run_query_parts(f).0,
            run_query_parts(f).1,
            "phase_number = ?"@,
            opt_string_view(f.phase),
        ),
        filter_honoured(
            run_query_parts(f).0,
            run_query_parts(f).1,
            "plan_number = ?"@,
            opt_string_view(f.plan),
        ),
        filter_honoured(run_query_parts(f).0, run_query_parts(f).1, "status = ?"@, opt_string_view(f.status)),
        filter_honoured(
            run_query_parts(f).0,
            run_query_parts(f).1,
            "created_at >= ?"@,
            opt_string_view(f.from),
        ),
        filter_honoured(
            run_query_parts(f).0,
            run_query_parts(f).1,
            "created_at <= ?"@,
            opt_string_view(f.to),
        ),
{
    reveal_strlit("phase_number = ?");
    reveal_strlit("plan_number = ?");
    reveal_strlit("status = ?");
    reveal_strlit("created_at >= ?");
    reveal_strlit("created_at <= ?");
    let cl = run_clauses();
    assert(cl[0] == "phase_number = ?"@ && cl[1] == "plan_number = ?"@ && cl[2] == "status = ?"@
        && cl[3] == "created_at >= ?"@ && cl[4] == "created_at <= ?"@);
    assert forall|m: int, j: int| 0 <= m < 5 && 0 <= j < 5 && m != j implies differ_early(
        #[trigger] cl[m],
        #[trigger] cl[j],
    ) by {
        if cl[m][0] != cl[j][0] {
            assert(cl[m][0] != cl[j][0]);
        } else if cl[m][1] != cl[j][1] {
            assert(cl[m][1] != cl[j][1]);
        } else {
            assert(cl[m][11] != cl[j][11]);
        }
    }
    lemma_run_filter(f, 0, "phase_number = ?"@, opt_string_view(f.phase));
    lemma_run_filter(f, 1, "plan_number = ?"@, opt_string_view(f.plan));
    lemma_run_filter(f, 2, "status = ?"@, opt_string_view(f.status));
    lemma_run_filter(f, 3, "created_at >= ?"@, opt_string_view(f.from));
    lemma_run_filter(f, 4, "created_at <= ?"@, opt_string_view(f.to));
}

} // verus!
