//! SUMMARY.md: the frontmatter of a plan summary and the task commits listed
//! in its body.
use vstd::prelude::*;

use super::frontmatter::{parse_frontmatter, split_spec, Document};
use super::plan::{list_or_empty, number_field, number_value};
use super::ParseError;
use crate::classes::{
    digit_class, digit_run, digit_run_exec, is_word_class, lemma_digit_run, word_class,
};
use crate::json::{
    json_text, json_to_text, lookup, opt_str, opt_str_list, opt_string_view, opt_value,
    str_field, str_list_field, strings_view, take_value_field, yaml_document, Json,
};
use crate::text::{
    chars_of, find_from, find_pattern, lemma_find_from, lemma_skip_ws_bounds, parse_i64,
    parse_i64_spec, skip_whitespace, skip_ws, slice_range, string_of, trim, trim_chars,
};

verus! {

/// A single commit record parsed from the Task Commits section.
#[derive(Debug, Clone, PartialEq, Eq)]
pub struct CommitRecord {
    /// Task number (1-based)
    pub task_number: i64,
    /// Task name/description
    pub task_name: String,
    /// Git commit hash (short form)
    pub commit_hash: Option<String>,
    /// Commit message (not always present in SUMMARY format)
    pub commit_message: Option<String>,
    /// Commit type: feat, fix, test, refactor, docs, chore
    pub commit_type: Option<String>,
}

/// A commit record as plain values: number, name, hash, message, type.
pub type CommitView = (i64, Seq<char>, Option<Seq<char>>, Option<Seq<char>>, Option<Seq<char>>);

pub open spec fn commit_view(c: CommitRecord) -> CommitView {
    (
        c.task_number,
        c.task_name@,
        opt_string_view(c.commit_hash),
        opt_string_view(c.commit_message),
        opt_string_view(c.commit_type),
    )
}

pub open spec fn commit_views(v: Seq<CommitRecord>) -> Seq<CommitView> {
    v.map_values(|c: CommitRecord| commit_view(c))
}

// ---------------------------------------------------------------------------
// The commit line pattern
//   (\d+)\.\s+\*\*(.+?)\*\*\s*(?:-|--)\s*`([a-f0-9]+)`\s*\((\w+)\)
// ---------------------------------------------------------------------------
/// `[a-f0-9]`.
pub open spec fn is_hex_lower(c: char) -> bool {
    ('a' <= c && c <= 'f') || ('0' <= c && c <= '9')
}

/// First index at or after `i` that `[a-f0-9]` does not match.
pub open spec fn hex_run(s: Seq<char>, i: int) -> int
    decreases s.len() - i,
{
    if 0 <= i < s.len() && is_hex_lower(s[i]) {
        hex_run(s, i + 1)
    } else {
        i
    }
}

/// First index at or after `i` that `\w` does not match.
pub open spec fn word_run(s: Seq<char>, i: int) -> int
    decreases s.len() - i,
{
    if 0 <= i < s.len() && word_class(s[i]) {
        word_run(s, i + 1)
    } else {
        i
    }
}

/// The part of the pattern after the task name, matched at `t`:
/// `\*\*\s*(?:-|--)\s*`([a-f0-9]+)`\s*\((\w+)\)`. Gives the bounds of the
/// hash and of the type. Each repetition is followed by a char it cannot
/// match, so each takes all it can; of the two dashes alternatives, the
/// second applies exactly when a second dash follows the first.
pub open spec fn suffix_at(s: Seq<char>, t: int) -> Option<(int, int, int, int)> {
    let u = skip_ws(s, t + 2);
    let v = if u + 1 < s.len() && s[u + 1] == '-' {
        u + 2
    } else {
        u + 1
    };
    let w = skip_ws(s, v);
    let h1 = hex_run(s, w + 1);
    let x = skip_ws(s, h1 + 1);
    let y1 = word_run(s, x + 1);
    if 0 <= t && t + 2 <= s.len() && s[t] == '*' && s[t + 1] == '*' && u < s.len() && s[u] == '-'
        && w < s.len() && s[w] == '`' && h1 > w + 1 && h1 < s.len() && s[h1] == '`' && x < s.len()
        && s[x] == '(' && y1 > x + 1 && y1 < s.len() && s[y1] == ')' {
        Some((w + 1, h1, x + 1, y1))
    } else {
        None
    }
}

/// The lazy task name `(.+?)`: the first end `t` (trying `t`, `t + 1`, ...)
/// after which the rest of the pattern matches, without crossing a line
/// break.
pub open spec fn name_end_from(s: Seq<char>, t: int) -> Option<int>
    decreases s.len() + 1 - t,
{
    if t < 1 || t > s.len() {
        None
    } else if s[t - 1] == '\n' {
        None
    } else if suffix_at(s, t) is Some {
        Some(t)
    } else {
        name_end_from(s, t + 1)
    }
}

/// The whole pattern matched at `p`: the ends of the number, the name's
/// bounds, the hash's bounds and the type's bounds.
pub open spec fn commit_at(s: Seq<char>, p: int) -> Option<(int, int, int, int, int, int, int)> {
    let q = digit_run(s, p);
    let r = skip_ws(s, q + 1);
    let a = r + 2;
    if 0 <= p < s.len() && digit_class(s[p]) && q < s.len() && s[q] == '.' && r > q + 1 && r + 2
        <= s.len() && s[r] == '*' && s[r + 1] == '*' {
        match name_end_from(s, a + 1) {
            Some(t) => match suffix_at(s, t) {
                Some((h0, h1, y0, y1)) => Some((q, a, t, h0, h1, y0, y1)),
                None => None,
            },
            None => None,
        }
    } else {
        None
    }
}

/// The record read from a match at `p`.
pub open spec fn record_at(s: Seq<char>, p: int, m: (int, int, int, int, int, int, int)) -> CommitView {
    let number = match parse_i64_spec(s.subrange(p, m.0)) {
        Some(v) => v,
        None => 0,
    };
    (
        number,
        trim(s.subrange(m.1, m.2)),
        Some(s.subrange(m.3, m.4)),
        None,
        Some(s.subrange(m.5, m.6)),
    )
}

pub proof fn lemma_skip_ws_ge(s: Seq<char>, i: int)
    ensures
        skip_ws(s, i) >= i,
    decreases s.len() - i,
{
    if 0 <= i < s.len() && crate::text::is_ws(s[i]) {
        lemma_skip_ws_ge(s, i + 1);
    }
}

pub proof fn lemma_hex_run(s: Seq<char>, i: int)
    ensures
        hex_run(s, i) >= i,
        0 <= i <= s.len() ==> hex_run(s, i) <= s.len(),
    decreases s.len() - i,
{
    if 0 <= i < s.len() && is_hex_lower(s[i]) {
        lemma_hex_run(s, i + 1);
    }
}

pub proof fn lemma_word_run(s: Seq<char>, i: int)
    ensures
        word_run(s, i) >= i,
        0 <= i <= s.len() ==> word_run(s, i) <= s.len(),
    decreases s.len() - i,
{
    if 0 <= i < s.len() && word_class(s[i]) {
        lemma_word_run(s, i + 1);
    }
}

pub proof fn lemma_name_end_from(s: Seq<char>, t: int)
    ensures
        name_end_from(s, t) matches Some(e) ==> e >= t && suffix_at(s, e) is Some,
    decreases s.len() + 1 - t,
{
    if 1 <= t <= s.len() && s[t - 1] != '\n' && suffix_at(s, t) is None {
        lemma_name_end_from(s, t + 1);
    }
}

/// A match ends after it starts.
pub proof fn lemma_commit_at(s: Seq<char>, p: int)
    ensures
        commit_at(s, p) matches Some(m) ==> p < m.0 && m.0 < m.1 && m.1 < m.2 && m.2 < m.3
            && m.3 < m.4 && m.4 < m.5 && m.5 < m.6 && m.6 < s.len(),
{
    if commit_at(s, p) is Some {
        let q = digit_run(s, p);
        lemma_digit_run(s, p);
        let r = skip_ws(s, q + 1);
        let a = r + 2;
        lemma_name_end_from(s, a + 1);
        let t = name_end_from(s, a + 1)->Some_0;
        let u = skip_ws(s, t + 2);
        lemma_skip_ws_ge(s, t + 2);
        let v = if u + 1 < s.len() && s[u + 1] == '-' {
            u + 2
        } else {
            u + 1
        };
        lemma_skip_ws_ge(s, v);
        let w = skip_ws(s, v);
        lemma_hex_run(s, w + 1);
        let h1 = hex_run(s, w + 1);
        lemma_skip_ws_ge(s, h1 + 1);
    }
}

/// The records of all non-overlapping matches in `s[i..]`, leftmost first.
pub open spec fn commits_from(s: Seq<char>, i: int) -> Seq<CommitView>
    decreases s.len() - i,
{
    if i < 0 || i >= s.len() {
        Seq::empty()
    } else {
        match commit_at(s, i) {
            Some(m) => {
                proof {
                    lemma_commit_at(s, i);
                }
                seq![record_at(s, i, m)] + commits_from(s, m.6 + 1)
            },
            None => commits_from(s, i + 1),
        }
    }
}

/// The "## Task Commits" section of a body: from the heading to the line
/// break before the next `## ` heading, or to the end.
pub open spec fn commit_section(body: Seq<char>) -> Option<Seq<char>> {
    match find_from(body, "## Task Commits"@, 0) {
        None => None,
        Some(pos) => {
            let sec = body.skip(pos);
            let e = match find_from(sec, "\n## "@, 1) {
                Some(k) => k,
                None => sec.len() as int,
            };
            Some(sec.take(e))
        },
    }
}

/// The commit records listed in a body.
pub open spec fn body_commits(body: Seq<char>) -> Seq<CommitView> {
    match commit_section(body) {
        None => Seq::empty(),
        Some(sec) => commits_from(sec, 0),
    }
}

fn hex_run_exec(s: &[char], i: usize) -> (r: usize)
    requires
        i <= s@.len(),
    ensures
        r as int == hex_run(s@, i as int),
        i <= r <= s@.len(),
{
    proof {
        lemma_hex_run(s@, i as int);
    }
    let mut k = i;
    while k < s.len() && (('a' <= s[k] && s[k] <= 'f') || ('0' <= s[k] && s[k] <= '9'))
        invariant
            i <= k <= s@.len(),
            hex_run(s@, k as int) == hex_run(s@, i as int),
        decreases s@.len() - k,
    {
        k = k + 1;
    }
    k
}

fn word_run_exec(s: &[char], i: usize) -> (r: usize)
    requires
        i <= s@.len(),
    ensures
        r as int == word_run(s@, i as int),
        i <= r <= s@.len(),
{
    proof {
        lemma_word_run(s@, i as int);
    }
    let mut k = i;
    while k < s.len() && is_word_class(s[k])
        invariant
            i <= k <= s@.len(),
            word_run(s@, k as int) == word_run(s@, i as int),
        decreases s@.len() - k,
    {
        k = k + 1;
    }
    k
}

fn suffix_at_exec(s: &[char], t: usize) -> (r: Option<(usize, usize, usize, usize)>)
    requires
        t <= s@.len(),
    ensures
        match r {
            Some((h0, h1, y0, y1)) => suffix_at(s@, t as int) == Some(
                (h0 as int, h1 as int, y0 as int, y1 as int),
            ),
            None => suffix_at(s@, t as int) is None,
        },
{
    let n = s.len();
    if n - t < 2 || s[t] != '*' || s[t + 1] != '*' {
        return None;
    }
    let u = skip_whitespace(s, t + 2);
    proof {
        lemma_skip_ws_bounds(s@, t + 2);
    }
    if u >= n || s[u] != '-' {
        return None;
    }
    let v = if u + 1 < n && s[u + 1] == '-' {
        u + 2
    } else {
        u + 1
    };
    let w = skip_whitespace(s, v);
    proof {
        lemma_skip_ws_bounds(s@, v as int);
    }
    if w >= n || s[w] != '`' {
        return None;
    }
    let h1 = hex_run_exec(s, w + 1);
    if h1 == w + 1 || h1 >= n || s[h1] != '`' {
        return None;
    }
    let x = skip_whitespace(s, h1 + 1);
    proof {
        lemma_skip_ws_bounds(s@, h1 + 1);
    }
    if x >= n || s[x] != '(' {
        return None;
    }
    let y1 = word_run_exec(s, x + 1);
    if y1 == x + 1 || y1 >= n || s[y1] != ')' {
        return None;
    }
    Some((w + 1, h1, x + 1, y1))
}

fn name_end_exec(s: &[char], t0: usize) -> (r: Option<(usize, (usize, usize, usize, usize))>)
    requires
        1 <= t0,
    ensures
        match r {
            Some((t, m)) => name_end_from(s@, t0 as int) == Some(t as int) && suffix_at(
                s@,
                t as int,
            ) == Some((m.0 as int, m.1 as int, m.2 as int, m.3 as int)),
            None => name_end_from(s@, t0 as int) is None,
        },
{
    let mut t = t0;
    while t < s.len()
        invariant
            1 <= t0 <= t,
            name_end_from(s@, t as int) == name_end_from(s@, t0 as int),
        decreases s@.len() - t,
    {
        if s[t - 1] == '\n' {
            return None;
        }
        match suffix_at_exec(s, t) {
            Some(m) => {
                return Some((t, m));
            },
            None => {},
        }
        t = t + 1;
    }
    assert(name_end_from(s@, t + 1) is None);
    None
}

fn commit_at_exec(s: &[char], p: usize) -> (r: Option<(usize, usize, usize, usize, usize, usize, usize)>)
    requires
        p < s@.len(),
    ensures
        match r {
            Some(m) => commit_at(s@, p as int) == Some(
                (
                    m.0 as int,
                    m.1 as int,
                    m.2 as int,
                    m.3 as int,
                    m.4 as int,
                    m.5 as int,
                    m.6 as int,
                ),
            ),
            None => commit_at(s@, p as int) is None,
        },
{
    let n = s.len();
    if !is_digit_class_at(s, p) {
        return None;
    }
    let q = digit_run_exec(s, p);
    proof {
        lemma_digit_run(s@, p as int);
    }
    if q >= n || s[q] != '.' {
        return None;
    }
    let r = skip_whitespace(s, q + 1);
    proof {
        lemma_skip_ws_bounds(s@, q + 1);
    }
    if r == q + 1 || n - r < 2 || s[r] != '*' || s[r + 1] != '*' {
        return None;
    }
    let a = r + 2;
    if a >= n {
        assert(name_end_from(s@, a + 1) is None);
        return None;
    }
    match name_end_exec(s, a + 1) {
        Some((t, (h0, h1, y0, y1))) => Some((q, a, t, h0, h1, y0, y1)),
        None => None,
    }
}

fn is_digit_class_at(s: &[char], p: usize) -> (r: bool)
    requires
        p < s@.len(),
    ensures
        r == digit_class(s@[p as int]),
{
    crate::classes::is_digit_class(s[p])
}

/// The records of all non-overlapping matches of the commit pattern in `s`.
pub fn commits_in(s: &[char]) -> (r: Vec<CommitRecord>)
    ensures
        commit_views(r@) == commits_from(s@, 0),
{
    let mut out: Vec<CommitRecord> = Vec::new();
    let mut i: usize = 0;
    while i < s.len()
        invariant
            i <= s@.len(),
            commit_views(out@) + commits_from(s@, i as int) == commits_from(s@, 0),
        decreases s@.len() - i,
    {
        match commit_at_exec(s, i) {
            Some(m) => {
                proof {
                    lemma_commit_at(s@, i as int);
                }
                let (q, a, t, h0, h1, y0, y1) = m;
                let digits = slice_range(s, i, q);
                let task_number = match parse_i64(&digits) {
                    Some(v) => v,
                    None => 0,
                };
                let name = slice_range(s, a, t);
                let task_name = string_of(&trim_chars(&name));
                let hash = slice_range(s, h0, h1);
                let typ = slice_range(s, y0, y1);
                let rec = CommitRecord {
                    task_number,
                    task_name,
                    commit_hash: Some(string_of(&hash)),
                    commit_message: None,
                    commit_type: Some(string_of(&typ)),
                };
                let ghost before = out@;
                out.push(rec);
                proof {
                    assert(commit_view(rec) == record_at(s@, i as int, commit_at(s@, i as int)->Some_0));
                    assert(commit_views(out@) =~= commit_views(before).push(commit_view(rec)));
                    assert(commits_from(s@, i as int) == seq![commit_view(rec)] + commits_from(
                        s@,
                        y1 + 1,
                    ));
                    assert(commit_views(out@) + commits_from(s@, y1 + 1) =~= commit_views(before)
                        + commits_from(s@, i as int));
                }
                i = y1 + 1;
            },
            None => {
                i = i + 1;
            },
        }
    }
    proof {
        assert(commit_views(out@) =~= commit_views(out@) + commits_from(s@, i as int));
    }
    out
}

/// Parse the "## Task Commits" section from the SUMMARY body.
///
/// Expected format:
/// ```text
/// ## Task Commits
///
/// 1. **Task 1: Name here** - `abc1234` (feat)
/// 2. **Task 2: Another task** - `def5678` (fix)
/// ```
pub fn parse_commit_section(body: &str) -> (r: Vec<CommitRecord>)
    ensures
        commit_views(r@) == body_commits(body@),
{
    let b = chars_of(body);
    let heading = chars_of("## Task Commits");
    let pos = match find_pattern(&b, &heading, 0) {
        Some(pos) => pos,
        None => {
            return Vec::new();
        },
    };
    proof {
        lemma_find_from(b@, heading@, 0);
    }
    let sec = slice_range(&b, pos, b.len());
    let next = chars_of("\n## ");
    let end = match find_pattern(&sec, &next, 1) {
        Some(k) => k,
        None => sec.len(),
    };
    proof {
        lemma_find_from(sec@, next@, 1);
        assert(sec@ == b@.skip(pos as int));
    }
    let section = slice_range(&sec, 0, end);
    proof {
        assert(section@ == sec@.take(end as int));
    }
    commits_in(&section)
}


/// Complete parsed data from a SUMMARY.md file.
#[derive(Debug)]
pub struct SummaryMdData {
    pub phase: Option<String>,
    pub plan: Option<i64>,
    pub duration: Option<String>,
    pub completed: Option<String>,
    pub key_files: Vec<String>,
    pub requirements_completed: Vec<String>,
    pub provides: Option<String>,
    pub affects: Option<String>,
    /// Commit records parsed from the body's "Task Commits" section
    pub commits: Vec<CommitRecord>,
}

/// The strings among `items`, in order.
pub open spec fn filter_strings(items: Seq<Json>) -> Seq<Seq<char>>
    decreases items.len(),
{
    if items.len() == 0 {
        Seq::empty()
    } else {
        let rest = filter_strings(items.drop_last());
        match items.last() {
            Json::Str(s) => rest.push(s@),
            _ => rest,
        }
    }
}

/// The strings of the arrays among the values of `e`, in entry order.
pub open spec fn entry_array_strings(e: Seq<(String, Json)>) -> Seq<Seq<char>>
    decreases e.len(),
{
    if e.len() == 0 {
        Seq::empty()
    } else {
        let rest = entry_array_strings(e.drop_last());
        match e.last().1 {
            Json::Array(a) => rest + filter_strings(a@),
            _ => rest,
        }
    }
}

/// A list of strings read from a value that may be an array, or a mapping of
/// arrays (the `key-files` format `{ created: [...], modified: [...] }`).
pub open spec fn string_list_of(v: Option<Json>) -> Seq<Seq<char>> {
    match v {
        Some(Json::Array(a)) => filter_strings(a@),
        Some(Json::Object(e)) => entry_array_strings(e@),
        _ => Seq::empty(),
    }
}

/// How many of `items` are strings.
pub open spec fn string_count(items: Seq<Json>) -> nat {
    items.filter(|x: Json| x is Str).len()
}

/// How many strings the arrays among the values of `e` hold in all.
pub open spec fn array_string_total(e: Seq<(String, Json)>) -> nat
    decreases e.len(),
{
    if e.len() == 0 {
        0
    } else {
        array_string_total(e.drop_last()) + match e.last().1 {
            Json::Array(a) => string_count(a@),
            _ => 0,
        }
    }
}

proof fn lemma_filter_strings_has(items: Seq<Json>, j: int)
    requires
        0 <= j < items.len(),
        items[j] is Str,
    ensures
        filter_strings(items).contains(items[j]->Str_0@),
    decreases items.len(),
{
    if j < items.len() - 1 {
        lemma_filter_strings_has(items.drop_last(), j);
        let r = filter_strings(items.drop_last());
        let k = choose|k: int| 0 <= k < r.len() && r[k] == items[j]->Str_0@;
        match items.last() {
            Json::Str(x) => {
                assert(filter_strings(items)[k] == r[k]);
            },
            _ => {},
        }
    } else {
        let r = filter_strings(items.drop_last());
        assert(filter_strings(items)[r.len() as int] == items[j]->Str_0@);
    }
}

proof fn lemma_filter_strings_len(items: Seq<Json>)
    ensures
        filter_strings(items).len() == string_count(items),
    decreases items.len(),
{
    reveal(Seq::filter);
    if items.len() > 0 {
        lemma_filter_strings_len(items.drop_last());
    }
}

/// Every string of every array among the values of a mapping is in the
/// list read from it: a file listed under any key is kept.
pub proof fn law_key_files_keep_every_listed_file(v: Json, i: int, j: int)
    requires
        v is Object,
        0 <= i < v->Object_0@.len(),
        v->Object_0@[i].1 is Array,
        0 <= j < v->Object_0@[i].1->Array_0@.len(),
        v->Object_0@[i].1->Array_0@[j] is Str,
    ensures
        string_list_of(Some(v)).contains(v->Object_0@[i].1->Array_0@[j]->Str_0@),
{
    lemma_entry_strings_has(v->Object_0@, i, j);
}

proof fn lemma_entry_strings_has(e: Seq<(String, Json)>, i: int, j: int)
    requires
        0 <= i < e.len(),
        e[i].1 is Array,
        0 <= j < e[i].1->Array_0@.len(),
        e[i].1->Array_0@[j] is Str,
    ensures
        entry_array_strings(e).contains(e[i].1->Array_0@[j]->Str_0@),
    decreases e.len(),
{
    let x = e[i].1->Array_0@[j]->Str_0@;
    let rest = entry_array_strings(e.drop_last());
    if i < e.len() - 1 {
        lemma_entry_strings_has(e.drop_last(), i, j);
        let k = choose|k: int| 0 <= k < rest.len() && rest[k] == x;
        match e.last().1 {
            Json::Array(a) => {
                assert(entry_array_strings(e)[k] == rest[k]);
            },
            _ => {},
        }
    } else {
        let a = e[i].1->Array_0@;
        lemma_filter_strings_has(a, j);
        let fs = filter_strings(a);
        let k = choose|k: int| 0 <= k < fs.len() && fs[k] == x;
        assert(entry_array_strings(e) == rest + fs);
        assert(entry_array_strings(e)[rest.len() + k] == x);
    }
}

/// The list read from a mapping of arrays holds exactly as many files as
/// those arrays hold strings, all of them together.
pub proof fn law_key_files_count(v: Json)
    requires
        v is Object,
    ensures
        string_list_of(Some(v)).len() == array_string_total(v->Object_0@),
{
    lemma_entry_strings_len(v->Object_0@);
}

proof fn lemma_entry_strings_len(e: Seq<(String, Json)>)
    ensures
        entry_array_strings(e).len() == array_string_total(e),
    decreases e.len(),
{
    if e.len() > 0 {
        lemma_entry_strings_len(e.drop_last());
        match e.last().1 {
            Json::Array(a) => {
                lemma_filter_strings_len(a@);
            },
            _ => {},
        }
    }
}

/// The list read from an array holds its strings, and only as many.
pub proof fn law_string_list_of_array(v: Json, j: int)
    requires
        v is Array,
    ensures
        string_list_of(Some(v)).len() == string_count(v->Array_0@),
        0 <= j < v->Array_0@.len() && v->Array_0@[j] is Str ==> string_list_of(Some(v)).contains(
            v->Array_0@[j]->Str_0@,
        ),
{
    lemma_filter_strings_len(v->Array_0@);
    if 0 <= j < v->Array_0@.len() && v->Array_0@[j] is Str {
        lemma_filter_strings_has(v->Array_0@, j);
    }
}

/// `items` joined with `sep` between them.
pub open spec fn join(items: Seq<Seq<char>>, sep: Seq<char>) -> Seq<char>
    decreases items.len(),
{
    if items.len() == 0 {
        Seq::empty()
    } else if items.len() == 1 {
        items[0]
    } else {
        join(items.drop_last(), sep) + sep + items.last()
    }
}

/// A value read as text: a string as it is, an array as its strings joined
/// with `, `, anything else as its JSON text.
pub open spec fn value_text(v: Option<Json>) -> Option<Seq<char>> {
    match v {
        None => None,
        Some(Json::Str(s)) => Some(s@),
        Some(Json::Array(a)) => Some(join(filter_strings(a@), ", "@)),
        Some(other) => Some(json_text(other)),
    }
}

/// The frontmatter can be read into the SUMMARY.md fields.
pub open spec fn summary_shape_ok(meta: Json) -> bool {
    match meta {
        Json::Object(e) => {
            &&& opt_str(lookup(e@, "phase"@)) is Ok
            &&& opt_str(lookup(e@, "duration"@)) is Ok
            &&& opt_str(lookup(e@, "completed"@)) is Ok
            &&& opt_str_list(lookup(e@, "requirements-completed"@)) is Ok
        },
        _ => false,
    }
}

/// `d` holds what the frontmatter `meta` and the body `body` say.
pub open spec fn summary_matches(meta: Json, body: Seq<char>, d: SummaryMdData) -> bool {
    &&& summary_shape_ok(meta)
    &&& meta matches Json::Object(e)
    &&& opt_str(lookup(e@, "phase"@)) == Ok::<_, ()>(opt_string_view(d.phase))
    &&& d.plan == number_value(lookup(e@, "plan"@))
    &&& opt_str(lookup(e@, "duration"@)) == Ok::<_, ()>(opt_string_view(d.duration))
    &&& opt_str(lookup(e@, "completed"@)) == Ok::<_, ()>(opt_string_view(d.completed))
    &&& strings_view(d.key_files@) == string_list_of(opt_value(lookup(e@, "key-files"@)))
    &&& strings_view(d.requirements_completed@) == list_or_empty(
        opt_str_list(lookup(e@, "requirements-completed"@)),
    )
    &&& opt_string_view(d.provides) == value_text(opt_value(lookup(e@, "provides"@)))
    &&& opt_string_view(d.affects) == value_text(opt_value(lookup(e@, "affects"@)))
    &&& commit_views(d.commits@) == body_commits(body)
}

/// The strings among `items`.
fn strings_among(items: &Vec<Json>) -> (r: Vec<String>)
    ensures
        strings_view(r@) == filter_strings(items@),
{
    let mut out: Vec<String> = Vec::new();
    let mut i: usize = 0;
    while i < items.len()
        invariant
            i <= items@.len(),
            strings_view(out@) == filter_strings(items@.take(i as int)),
        decreases items@.len() - i,
    {
        proof {
            assert(items@.take(i + 1).drop_last() =~= items@.take(i as int));
        }
        match &items[i] {
            Json::Str(s) => {
                out.push(s.clone());
                proof {
                    assert(strings_view(out@) =~= filter_strings(items@.take(i as int)).push(
                        s@,
                    ));
                }
            },
            _ => {},
        }
        i = i + 1;
    }
    proof {
        assert(items@.take(items@.len() as int) =~= items@);
    }
    out
}

/// Extract a list of strings from a value that may be an array or a mapping
/// of arrays.
pub fn extract_string_list(value: Option<Json>) -> (r: Vec<String>)
    ensures
        strings_view(r@) == string_list_of(value),
{
    match value {
        Some(Json::Array(a)) => strings_among(&a),
        Some(Json::Object(e)) => {
            let mut files: Vec<String> = Vec::new();
            let mut i: usize = 0;
            while i < e.len()
                invariant
                    i <= e@.len(),
                    strings_view(files@) == entry_array_strings(e@.take(i as int)),
                decreases e@.len() - i,
            {
                proof {
                    assert(e@.take(i + 1).drop_last() =~= e@.take(i as int));
                }
                match &e[i].1 {
                    Json::Array(a) => {
                        let mut items = strings_among(a);
                        let ghost before = files@;
                        files.append(&mut items);
                        proof {
                            assert(strings_view(files@) =~= strings_view(before) + filter_strings(
                                a@,
                            ));
                        }
                    },
                    _ => {},
                }
                i = i + 1;
            }
            proof {
                assert(e@.take(e@.len() as int) =~= e@);
            }
            files
        },
        _ => Vec::new(),
    }
}

/// `items` joined with `sep`.
pub fn join_strings(items: &Vec<String>, sep: &str) -> (r: String)
    ensures
        r@ == join(strings_view(items@), sep@),
{
    let mut out = String::new();
    let mut i: usize = 0;
    while i < items.len()
        invariant
            i <= items@.len(),
            out@ == join(strings_view(items@.take(i as int)), sep@),
        decreases items@.len() - i,
    {
        proof {
            assert(strings_view(items@.take(i + 1)).drop_last() =~= strings_view(
                items@.take(i as int),
            ));
        }
        if i == 0 {
            out = items[i].clone();
        } else {
            out = out.concat(sep).concat(items[i].as_str());
        }
        i = i + 1;
    }
    proof {
        assert(items@.take(items@.len() as int) =~= items@);
    }
    out
}

/// A value read as text (see `value_text`).
pub fn text_of_value(v: Option<Json>) -> (r: Option<String>)
    ensures
        opt_string_view(r) == value_text(v),
{
    match v {
        None => None,
        Some(Json::Str(s)) => Some(s),
        Some(Json::Array(a)) => {
            let strs = strings_among(&a);
            Some(join_strings(&strs, ", "))
        },
        Some(other) => Some(json_to_text(&other)),
    }
}

/// Build the SUMMARY.md data from a parsed document.
pub fn summary_from_document(doc: Document) -> (r: Result<SummaryMdData, ParseError>)
    ensures
        match r {
            Ok(d) => summary_matches(doc.metadata, doc.content@, d),
            Err(ParseError::YamlError(m)) => !summary_shape_ok(doc.metadata) && m@
                == super::state_md::shape_error_text(),
            Err(_) => false,
        },
{
    proof {
        reveal_strlit("frontmatter fields do not have the expected types");
    }
    let ghost meta = doc.metadata;
    let ghost body0 = doc.content@;
    let Document { metadata, content } = doc;
    let mut e = match metadata {
        Json::Object(e) => e,
        _ => {
            return Err(
                ParseError::YamlError(
                    String::from_str("frontmatter fields do not have the expected types"),
                ),
            );
        },
    };
    let ghost e0 = e@;
    let phase = str_field(&e, "phase");
    let duration = str_field(&e, "duration");
    let completed = str_field(&e, "completed");
    let requirements = str_list_field(&e, "requirements-completed");
    let plan = number_field(&e, "plan");
    match (phase, duration, completed, requirements) {
        (Ok(phase), Ok(duration), Ok(completed), Ok(requirements)) => {
            proof {
                reveal_strlit("key-files");
                reveal_strlit("provides");
                reveal_strlit("affects");
                assert("provides"@[0] == 'p' && "key-files"@[0] == 'k' && "affects"@[0] == 'a');
                assert("provides"@ != "key-files"@ && "affects"@ != "key-files"@ && "affects"@
                    != "provides"@);
            }
            let key_files = take_value_field(&mut e, "key-files");
            let provides = take_value_field(&mut e, "provides");
            let affects = take_value_field(&mut e, "affects");
            let requirements_completed = match requirements {
                Some(l) => l,
                None => Vec::new(),
            };
            let commits = parse_commit_section(content.as_str());
            let d = SummaryMdData {
                phase,
                plan,
                duration,
                completed,
                key_files: extract_string_list(key_files),
                requirements_completed,
                provides: text_of_value(provides),
                affects: text_of_value(affects),
                commits,
            };
            assert(meta matches Json::Object(x) && x@ == e0);
            assert(opt_str(lookup(e0, "phase"@)) == Ok::<_, ()>(opt_string_view(d.phase)));
            assert(opt_str(lookup(e0, "duration"@)) == Ok::<_, ()>(opt_string_view(d.duration)));
            assert(opt_str(lookup(e0, "completed"@)) == Ok::<_, ()>(opt_string_view(d.completed)));
            assert(strings_view(d.requirements_completed@) == list_or_empty(
                opt_str_list(lookup(e0, "requirements-completed"@)),
            ));
            assert(d.plan == number_value(lookup(e0, "plan"@)));
            assert(commit_views(d.commits@) == body_commits(body0));
            Ok(d)
        },
        _ => Err(
            ParseError::YamlError(
                String::from_str("frontmatter fields do not have the expected types"),
            ),
        ),
    }
}

/// Parse a SUMMARY.md file content into structured data.
pub fn parse_summary_md(content: &str) -> (r: Result<SummaryMdData, ParseError>)
    ensures
        match r {
            Ok(d) => split_spec(content@) matches Ok((y, b)) && yaml_document(y) matches Ok(meta)
                && summary_matches(meta, b, d),
            Err(ParseError::YamlError(m)) => split_spec(content@) matches Ok((y, b)) && (
            yaml_document(y) == Err::<Json, Seq<char>>(m@) || (yaml_document(y) matches Ok(meta)
                && !summary_shape_ok(meta) && m@ == super::state_md::shape_error_text())),
            Err(e) => split_spec(content@) == Err::<(Seq<char>, Seq<char>), _>(e),
        },
{
    match parse_frontmatter(content) {
        Ok(doc) => summary_from_document(doc),
        Err(e) => Err(e),
    }
}

} // verus!
