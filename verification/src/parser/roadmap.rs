//! ROADMAP.md: phase headings, their bold fields and plan checklists, and the
//! execution order.
use vstd::prelude::*;

use super::ParseError;
use crate::classes::{digit_run, digit_run_exec, lemma_digit_run};
use crate::text::{
    char_pos, chars_of, comma_list, find_char, find_from, find_pattern, first_token, has_at, same_chars,
    first_token_of, is_whitespace, is_ws, lemma_char_pos, lemma_find_from, lemma_skip_ws_bounds,
    list_items, occurs_at, parse_i64, parse_i64_spec, skip_whitespace, skip_ws, slice_range,
    split_from, starts_with, string_of, trim, trim_chars,
};

verus! {

/// A single plan list item from a phase's plan checklist.
pub struct PlanListItem {
    /// Filename of the plan (e.g., "01-01-PLAN.md")
    pub filename: String,
    /// Description text after the filename
    pub description: String,
    /// Whether the checklist item is marked complete [x]
    pub completed: bool,
}

pub struct PlanItemView {
    pub filename: Seq<char>,
    pub description: Seq<char>,
    pub completed: bool,
}

impl View for PlanListItem {
    type V = PlanItemView;

    open spec fn view(&self) -> PlanItemView {
        PlanItemView {
            filename: self.filename@,
            description: self.description@,
            completed: self.completed,
        }
    }
}

// ---------------------------------------------------------------------------
// Bold fields: `**Field**: value` or `**Field:** value`
// ---------------------------------------------------------------------------

/// The value that pattern `pat` introduces on one line: the trimmed text after
/// its first occurrence in the trimmed line, when that is not empty.
pub open spec fn line_field(line: Seq<char>, pat: Seq<char>) -> Option<Seq<char>> {
    let t = trim(line);
    match find_from(t, pat, 0) {
        Some(pos) => {
            let v = trim(t.skip(pos + pat.len()));
            if v.len() > 0 {
                Some(v)
            } else {
                None
            }
        },
        None => None,
    }
}

/// The first line from index `i` on that gives a value for `p1` or (on the same
/// line, second) for `p2`.
pub open spec fn bold_field_from(s: Seq<char>, p1: Seq<char>, p2: Seq<char>, i: int) -> Option<
    Seq<char>,
>
    decreases s.len() - i,
{
    if i < 0 || i > s.len() {
        None
    } else {
        let j = char_pos(s, '\n', i);
        let line = s.subrange(i, j);
        match line_field(line, p1) {
            Some(v) => Some(v),
            None => match line_field(line, p2) {
                Some(v) => Some(v),
                None => if j >= s.len() {
                    None
                } else {
                    proof {
                        lemma_char_pos(s, '\n', i);
                    }
                    bold_field_from(s, p1, p2, j + 1)
                },
            },
        }
    }
}

fn line_field_exec(line: &[char], pat: &[char]) -> (r: Option<Vec<char>>)
    ensures
        match r {
            Some(v) => line_field(line@, pat@) == Some(v@),
            None => line_field(line@, pat@) is None,
        },
{
    let t = trim_chars(line);
    match find_pattern(&t, pat, 0) {
        Some(pos) => {
            proof {
                lemma_find_from(t@, pat@, 0);
                assert(occurs_at(t@, pat@, pos as int));
            }
            let plen = pat.len();
            let tl = t.len();
            assert(pos + plen <= tl);
            let rest = slice_range(&t, pos + plen, tl);
            assert(rest@ == t@.skip(pos + pat@.len()));
            let v = trim_chars(&rest);
            if v.len() > 0 {
                Some(v)
            } else {
                None
            }
        },
        None => None,
    }
}

/// Extract a `**Field**: value` pattern from section text, trying the
/// `**Field**:` form before `**Field:**` on each line.
pub fn extract_bold_field(section: &[char], p1: &[char], p2: &[char]) -> (r: Option<Vec<char>>)
    ensures
        match r {
            Some(v) => bold_field_from(section@, p1@, p2@, 0) == Some(v@),
            None => bold_field_from(section@, p1@, p2@, 0) is None,
        },
{
    let mut i: usize = 0;
    loop
        invariant
            i <= section@.len(),
            bold_field_from(section@, p1@, p2@, i as int) == bold_field_from(
                section@,
                p1@,
                p2@,
                0,
            ),
        decreases section@.len() - i,
    {
        let j = find_char(section, '\n', i);
        proof {
            lemma_char_pos(section@, '\n', i as int);
        }
        let line = slice_range(section, i, j);
        match line_field_exec(&line, p1) {
            Some(v) => {
                return Some(v);
            },
            None => {},
        }
        match line_field_exec(&line, p2) {
            Some(v) => {
                return Some(v);
            },
            None => {},
        }
        if j >= section.len() {
            return None;
        }
        i = j + 1;
    }
}

// ---------------------------------------------------------------------------
// Plan checklist: `- [x] 01-01-PLAN.md -- Description`
// ---------------------------------------------------------------------------

/// `- [c] ` with `c` one of ` `, `x`, `X` starts at `k` of line `l`, and at
/// least one char follows.
pub open spec fn item_prefix_at(l: Seq<char>, k: int) -> bool {
    &&& 0 <= k
    &&& k + 6 < l.len()
    &&& l[k] == '-' && l[k + 1] == ' ' && l[k + 2] == '['
    &&& (l[k + 3] == ' ' || l[k + 3] == 'x' || l[k + 3] == 'X')
    &&& l[k + 4] == ']' && l[k + 5] == ' '
}

/// First `k` at or after `i` where the item prefix matches.
pub open spec fn item_start_from(l: Seq<char>, i: int) -> Option<int>
    decreases l.len() - i,
{
    if i < 0 || i + 6 >= l.len() {
        None
    } else if item_prefix_at(l, i) {
        Some(i)
    } else {
        item_start_from(l, i + 1)
    }
}

/// The rest of the text from `k` reads `\s+--\s+.+`: whitespace, `--`,
/// whitespace, then at least one char.
pub open spec fn separator_at(r: Seq<char>, k: int) -> bool {
    let w = skip_ws(r, k);
    &&& 0 <= k < w
    &&& w + 4 <= r.len()
    &&& r[w] == '-' && r[w + 1] == '-'
    &&& is_ws(r[w + 2])
}

/// Smallest `k` at or after `i` (below the length) where a separator starts;
/// the length when there is none.
pub open spec fn separator_from(r: Seq<char>, i: int) -> int
    decreases r.len() - i,
{
    if i < 1 || i >= r.len() {
        r.len() as int
    } else if separator_at(r, i) {
        i
    } else {
        separator_from(r, i + 1)
    }
}

/// The checklist item a trimmed line holds: the leftmost item prefix, the
/// shortest non-empty file name after which the rest reads as a separator and
/// a description (or the whole rest when there is none), each trimmed.
pub open spec fn line_item(l: Seq<char>) -> Option<PlanItemView> {
    match item_start_from(l, 0) {
        None => None,
        Some(k) => {
            let r = l.skip(k + 6);
            let f = separator_from(r, 1);
            let description = if f < r.len() {
                trim(r.skip(skip_ws(r, f) + 2))
            } else {
                Seq::empty()
            };
            Some(
                PlanItemView {
                    filename: trim(r.take(f)),
                    description,
                    completed: l[k + 3] != ' ',
                },
            )
        },
    }
}

/// `Plans:` or a bare `Plans` opens the checklist.
pub open spec fn opens_checklist(t: Seq<char>) -> bool {
    starts_with(t, seq!['P', 'l', 'a', 'n', 's', ':']) || t == seq!['P', 'l', 'a', 'n', 's']
}

/// Checklist items on the lines from index `i` on: after a line that opens
/// the checklist, each line holding an item contributes it, until a trimmed
/// line starting with `#`.
pub open spec fn checklist_from(s: Seq<char>, i: int, in_plans: bool) -> Seq<PlanItemView>
    decreases s.len() - i,
{
    if i < 0 || i > s.len() {
        Seq::empty()
    } else {
        let j = char_pos(s, '\n', i);
        let t = trim(s.subrange(i, j));
        if opens_checklist(t) {
            if j >= s.len() {
                Seq::empty()
            } else {
                proof {
                    lemma_char_pos(s, '\n', i);
                }
                checklist_from(s, j + 1, true)
            }
        } else if in_plans && t.len() > 0 && t[0] == '#' {
            Seq::empty()
        } else {
            let here = if in_plans {
                match line_item(t) {
                    Some(it) => seq![it],
                    None => Seq::empty(),
                }
            } else {
                Seq::empty()
            };
            if j >= s.len() {
                here
            } else {
                proof {
                    lemma_char_pos(s, '\n', i);
                }
                here + checklist_from(s, j + 1, in_plans)
            }
        }
    }
}

fn find_item_start(l: &[char]) -> (r: Option<usize>)
    ensures
        match r {
            Some(k) => item_start_from(l@, 0) == Some(k as int),
            None => item_start_from(l@, 0) is None,
        },
{
    let n = l.len();
    let mut k: usize = 0;
    while k < n && n - k > 6
        invariant
            n == l@.len(),
            item_start_from(l@, k as int) == item_start_from(l@, 0),
        decreases n - k,
    {
        let c = l[k + 3];
        if l[k] == '-' && l[k + 1] == ' ' && l[k + 2] == '[' && (c == ' ' || c == 'x' || c == 'X')
            && l[k + 4] == ']' && l[k + 5] == ' ' {
            return Some(k);
        }
        k = k + 1;
    }
    None
}

fn find_separator(r: &[char]) -> (f: usize)
    ensures
        f as int == separator_from(r@, 1),
{
    let rn = r.len();
    let mut f: usize = 1;
    while f < rn
        invariant
            rn == r@.len(),
            1 <= f,
            f <= rn || rn == 0,
            separator_from(r@, f as int) == separator_from(r@, 1),
        decreases rn - f,
    {
        let w = skip_whitespace(r, f);
        proof {
            lemma_skip_ws_bounds(r@, f as int);
        }
        if w > f && w <= rn && rn - w >= 4 && r[w] == '-' && r[w + 1] == '-' && is_whitespace(
            r[w + 2],
        ) {
            return f;
        }
        f = f + 1;
    }
    if rn == 0 {
        assert(separator_from(r@, 1) == 0);
        return 0;
    }
    f
}

/// The item a trimmed line holds.
fn parse_item(l: &[char]) -> (r: Option<PlanListItem>)
    ensures
        match r {
            Some(it) => line_item(l@) == Some(it@),
            None => line_item(l@) is None,
        },
{
    let k = match find_item_start(l) {
        Some(k) => k,
        None => {
            return None;
        },
    };
    proof {
        lemma_item_start(l@, 0);
    }
    let n = l.len();
    let r = slice_range(l, k + 6, n);
    assert(r@ == l@.skip(k + 6));
    let rn = r.len();
    let f = find_separator(&r);
    proof {
        lemma_separator_from(r@, 1);
    }
    let filename = trim_chars(&slice_range(&r, 0, f));
    let description = if f < rn {
        let w = skip_whitespace(&r, f);
        proof {
            lemma_skip_ws_bounds(r@, f as int);
        }
        let rest = slice_range(&r, w + 2, rn);
        trim_chars(&rest)
    } else {
        Vec::new()
    };
    let item = PlanListItem {
        filename: string_of(&filename),
        description: string_of(&description),
        completed: l[k + 3] != ' ',
    };
    proof {
        assert(r@.take(f as int) == r@.subrange(0, f as int));
        if f < rn {
            assert(r@.skip(skip_ws(r@, f as int) + 2) == r@.subrange(skip_ws(r@, f as int) + 2, rn as int));
        }
    }
    Some(item)
}

proof fn lemma_item_start(l: Seq<char>, i: int)
    requires
        0 <= i,
    ensures
        item_start_from(l, i) matches Some(k) ==> i <= k && item_prefix_at(l, k),
    decreases l.len() - i,
{
    if i + 6 < l.len() && !item_prefix_at(l, i) {
        lemma_item_start(l, i + 1);
    }
}

proof fn lemma_separator_from(r: Seq<char>, i: int)
    requires
        1 <= i,
    ensures
        separator_from(r, i) <= r.len(),
        separator_from(r, i) < r.len() ==> separator_at(r, separator_from(r, i)) && i
            <= separator_from(r, i),
        r.len() >= 1 ==> 1 <= separator_from(r, i),
    decreases r.len() - i,
{
    if i < r.len() && !separator_at(r, i) {
        lemma_separator_from(r, i + 1);
    }
}

fn opens_checklist_exec(t: &[char]) -> (r: bool)
    ensures
        r == opens_checklist(t@),
{
    let pl = vec!['P', 'l', 'a', 'n', 's', ':'];
    let p = vec!['P', 'l', 'a', 'n', 's'];
    crate::text::has_at(t, 0, &pl) || crate::text::same_chars(t, &p)
}

/// Parse plan checklist items: `- [x] 01-01-PLAN.md -- Description`.
fn parse_plan_checklist(section: &[char]) -> (r: Vec<PlanListItem>)
    ensures
        r@.map_values(|p: PlanListItem| p@) == checklist_from(section@, 0, false),
{
    let mut items: Vec<PlanListItem> = Vec::new();
    let mut in_plans = false;
    let mut i: usize = 0;
    let ghost total = checklist_from(section@, 0, false);
    loop
        invariant
            i <= section@.len(),
            total == checklist_from(section@, 0, false),
            total == items@.map_values(|p: PlanListItem| p@) + checklist_from(
                section@,
                i as int,
                in_plans,
            ),
        decreases section@.len() - i,
    {
        let j = find_char(section, '\n', i);
        proof {
            lemma_char_pos(section@, '\n', i as int);
        }
        let t = trim_chars(&slice_range(section, i, j));
        let ghost ip = in_plans;
        assert(checklist_from(section@, i as int, ip) == {
            let tt = trim(section@.subrange(i as int, j as int));
            if opens_checklist(tt) {
                if j >= section@.len() { Seq::empty() } else { checklist_from(section@, j + 1, true) }
            } else if ip && tt.len() > 0 && tt[0] == '#' {
                Seq::empty()
            } else {
                let here = if ip {
                    match line_item(tt) {
                        Some(it) => seq![it],
                        None => Seq::<PlanItemView>::empty(),
                    }
                } else {
                    Seq::empty()
                };
                if j >= section@.len() { here } else { here + checklist_from(section@, j + 1, ip) }
            }
        });
        if opens_checklist_exec(&t) {
            in_plans = true;
            if j >= section.len() {
                assert(total =~= items@.map_values(|p: PlanListItem| p@));
                return items;
            }
        } else if in_plans && t.len() > 0 && t[0] == '#' {
            assert(total =~= items@.map_values(|p: PlanListItem| p@));
            return items;
        } else {
            if in_plans {
                match parse_item(&t) {
                    Some(it) => {
                        let ghost prev = items@;
                        items.push(it);
                        proof {
                            assert(items@.map_values(|p: PlanListItem| p@) =~= prev.map_values(
                                |p: PlanListItem| p@,
                            ).push(it@));
                        }
                    },
                    None => {},
                }
            }
            if j >= section.len() {
                proof {
                    assert(total =~= items@.map_values(|p: PlanListItem| p@));
                }
                return items;
            }
        }
        i = j + 1;
    }
}

// ---------------------------------------------------------------------------
// Phase entries
// ---------------------------------------------------------------------------

/// A phase entry parsed from ROADMAP.md.
pub struct PhaseEntry {
    /// Phase number as string (supports decimal: "1", "2.1")
    pub number: String,
    /// Phase name
    pub name: String,
    /// Goal description
    pub goal: Option<String>,
    /// Dependencies (e.g., ["Phase 1"])
    pub depends_on: Vec<String>,
    /// Requirement IDs (e.g., ["STATE-01", "STATE-02"])
    pub requirements: Vec<String>,
    /// Number of plans stated in the heading
    pub plan_count: Option<i64>,
    /// Individual plan checklist items
    pub plans: Vec<PlanListItem>,
    /// Whether the phase is marked complete in progress table
    pub completed: bool,
}

pub struct PhaseEntryView {
    pub number: Seq<char>,
    pub name: Seq<char>,
    pub goal: Option<Seq<char>>,
    pub depends_on: Seq<Seq<char>>,
    pub requirements: Seq<Seq<char>>,
    pub plan_count: Option<i64>,
    pub plans: Seq<PlanItemView>,
    pub completed: bool,
}

impl View for PhaseEntry {
    type V = PhaseEntryView;

    open spec fn view(&self) -> PhaseEntryView {
        PhaseEntryView {
            number: self.number@,
            name: self.name@,
            goal: match self.goal {
                Some(g) => Some(g@),
                None => None,
            },
            depends_on: self.depends_on@.map_values(|x: String| x@),
            requirements: self.requirements@.map_values(|x: String| x@),
            plan_count: self.plan_count,
            plans: self.plans@.map_values(|p: PlanListItem| p@),
            completed: self.completed,
        }
    }
}

/// The value of a bold field `**name**:` / `**name:**` in a section.
pub open spec fn field(section: Seq<char>, colon_outside: Seq<char>, colon_inside: Seq<char>) -> Option<
    Seq<char>,
> {
    bold_field_from(section, colon_outside, colon_inside, 0)
}

/// The metadata of one phase section; `completed` is what the progress
/// table says of the phase.
pub open spec fn phase_spec(
    number: Seq<char>,
    name: Seq<char>,
    section: Seq<char>,
    completed: bool,
) -> PhaseEntryView {
    PhaseEntryView {
        number,
        name,
        goal: field(section, "**Goal**:"@, "**Goal:**"@),
        depends_on: match field(section, "**Depends on**:"@, "**Depends on:**"@) {
            Some(d) => list_items(split_from(d, ',', 0), true),
            None => Seq::empty(),
        },
        requirements: match field(section, "**Requirements**:"@, "**Requirements:**"@) {
            Some(r) => list_items(split_from(r, ',', 0), false),
            None => Seq::empty(),
        },
        plan_count: match field(section, "**Plans**:"@, "**Plans:**"@) {
            Some(p) => match first_token(p) {
                Some(t) => parse_i64_spec(t),
                None => None,
            },
            None => None,
        },
        plans: checklist_from(section, 0, false),
        completed,
    }
}

fn bold_field(section: &[char], colon_outside: &str, colon_inside: &str) -> (r: Option<Vec<char>>)
    ensures
        match r {
            Some(v) => field(section@, colon_outside@, colon_inside@) == Some(v@),
            None => field(section@, colon_outside@, colon_inside@) is None,
        },
{
    let p1 = chars_of(colon_outside);
    let p2 = chars_of(colon_inside);
    extract_bold_field(section, &p1, &p2)
}

/// Parse a single phase section for its metadata; `completed` is whether
/// the progress table marks the phase complete.
pub fn parse_single_phase(number: &[char], name: &[char], section: &[char], completed: bool) -> (r:
    PhaseEntry)
    ensures
        r@ == phase_spec(number@, name@, section@, completed),
{
    let goal = match bold_field(section, "**Goal**:", "**Goal:**") {
        Some(g) => Some(string_of(&g)),
        None => None,
    };
    let depends_on = match bold_field(section, "**Depends on**:", "**Depends on:**") {
        Some(d) => comma_list(&d, true),
        None => Vec::new(),
    };
    let requirements = match bold_field(section, "**Requirements**:", "**Requirements:**") {
        Some(d) => comma_list(&d, false),
        None => Vec::new(),
    };
    let plan_count = match bold_field(section, "**Plans**:", "**Plans:**") {
        Some(p) => match first_token_of(&p) {
            Some(t) => parse_i64(&t),
            None => None,
        },
        None => None,
    };
    let plans = parse_plan_checklist(section);
    let r = PhaseEntry {
        number: string_of(number),
        name: string_of(name),
        goal,
        depends_on,
        requirements,
        plan_count,
        plans,
        completed,
    };
    proof {
        assert(r@.depends_on =~= phase_spec(number@, name@, section@, completed).depends_on);
        assert(r@.requirements =~= phase_spec(number@, name@, section@, completed).requirements);
    }
    r
}

// ---------------------------------------------------------------------------
// The progress table: `| N. Name | x/y | Complete | date |`
// ---------------------------------------------------------------------------

/// A table cell that names phase `n`: it begins with `n.`, followed by a
/// space or nothing (so `2.1. Hotfix` names phase `2.1`, not phase `2`).
pub open spec fn cell_names_phase(c: Seq<char>, n: Seq<char>) -> bool {
    &&& n.len() > 0
    &&& c.len() > n.len()
    &&& c.subrange(0, n.len() as int) == n
    &&& c[n.len() as int] == '.'
    &&& (c.len() == n.len() + 1 || c[n.len() + 1int] == ' ')
}

/// A line that is a progress-table row of phase `n` whose status column
/// reads `Complete`: after trimming it begins with `|`, its first cell
/// names the phase and its third cell, trimmed, is `Complete`.
pub open spec fn row_completes(l: Seq<char>, n: Seq<char>) -> bool {
    let t = trim(l);
    let b1 = char_pos(t, '|', 1);
    let b2 = char_pos(t, '|', b1 + 1);
    let b3 = char_pos(t, '|', b2 + 1);
    &&& t.len() > 0
    &&& t[0] == '|'
    &&& b3 < t.len()
    &&& cell_names_phase(trim(t.subrange(1, b1)), n)
    &&& trim(t.subrange(b2 + 1, b3)) == "Complete"@
}

/// Whether some line starting at or after `i` completes phase `n`.
pub open spec fn completed_from(s: Seq<char>, n: Seq<char>, i: int) -> bool
    decreases s.len() - i,
{
    if i < 0 || i >= s.len() {
        false
    } else {
        let e = char_pos(s, '\n', i);
        proof {
            lemma_char_pos(s, '\n', i);
        }
        if row_completes(s.subrange(i, e), n) {
            true
        } else if e >= s.len() {
            false
        } else {
            completed_from(s, n, e + 1)
        }
    }
}

/// Whether the progress table of the roadmap marks phase `n` complete.
pub open spec fn marked_complete(s: Seq<char>, n: Seq<char>) -> bool {
    completed_from(s, n, 0)
}

fn cell_names_phase_exec(c: &[char], n: &[char]) -> (r: bool)
    ensures
        r == cell_names_phase(c@, n@),
{
    if n.len() == 0 || c.len() <= n.len() {
        return false;
    }
    if !has_at(c, 0, n) {
        return false;
    }
    let k = n.len();
    c[k] == '.' && (c.len() == k + 1 || c[k + 1] == ' ')
}

fn row_completes_exec(l: &[char], n: &[char]) -> (r: bool)
    ensures
        r == row_completes(l@, n@),
{
    let t = trim_chars(l);
    if t.len() == 0 || t[0] != '|' {
        return false;
    }
    let b1 = find_char(&t, '|', 1);
    proof {
        lemma_char_pos(t@, '|', 1);
    }
    if b1 >= t.len() {
        return false;
    }
    let b2 = find_char(&t, '|', b1 + 1);
    proof {
        lemma_char_pos(t@, '|', b1 + 1);
    }
    if b2 >= t.len() {
        return false;
    }
    let b3 = find_char(&t, '|', b2 + 1);
    proof {
        lemma_char_pos(t@, '|', b2 + 1);
    }
    if b3 >= t.len() {
        return false;
    }
    let first = trim_chars(&slice_range(&t, 1, b1));
    let status = trim_chars(&slice_range(&t, b2 + 1, b3));
    let complete = chars_of("Complete");
    cell_names_phase_exec(&first, n) && same_chars(&status, &complete)
}

/// Whether the progress table marks phase `n` complete.
fn phase_marked_complete(s: &[char], n: &[char]) -> (r: bool)
    ensures
        r == marked_complete(s@, n@),
{
    let mut i: usize = 0;
    while i < s.len()
        invariant
            i <= s@.len(),
            marked_complete(s@, n@) == completed_from(s@, n@, i as int),
        decreases s@.len() - i,
    {
        let e = find_char(s, '\n', i);
        proof {
            lemma_char_pos(s@, '\n', i as int);
        }
        let line = slice_range(s, i, e);
        if row_completes_exec(&line, n) {
            return true;
        }
        if e >= s.len() {
            proof {
                assert(completed_from(s@, n@, e + 1) == false);
            }
            return false;
        }
        i = e + 1;
    }
    false
}

// ---------------------------------------------------------------------------
// Phase headings: `### Phase N: Name` with N = \d+(\.\d+)?
// ---------------------------------------------------------------------------

pub open spec fn heading_prefix() -> Seq<char> {
    seq!['#', '#', '#', ' ', 'P', 'h', 'a', 's', 'e', ' ']
}

/// End of the phase number of a heading starting at `p` (the number is
/// `s[p + 10..ne]`), when the text there reads `### Phase N: ` followed by at
/// least one char of the line.
pub open spec fn heading_number_end(s: Seq<char>, p: int) -> Option<int> {
    if !occurs_at(s, heading_prefix(), p) {
        None
    } else {
        let q = p + 10;
        let d1 = digit_run(s, q);
        if d1 == q {
            None
        } else {
            let ne = if d1 < s.len() && s[d1] == '.' && digit_run(s, d1 + 1) > d1 + 1 {
                digit_run(s, d1 + 1)
            } else {
                d1
            };
            if ne + 2 < s.len() && s[ne] == ':' && s[ne + 1] == ' ' && s[ne + 2] != '\n' {
                Some(ne)
            } else {
                None
            }
        }
    }
}

/// First heading start at or after `p`.
pub open spec fn next_heading(s: Seq<char>, p: int) -> Option<int>
    decreases s.len() - p,
{
    if p < 0 || p >= s.len() {
        None
    } else if heading_number_end(s, p) is Some {
        Some(p)
    } else {
        next_heading(s, p + 1)
    }
}

pub proof fn lemma_next_heading(s: Seq<char>, p: int)
    requires
        0 <= p,
    ensures
        next_heading(s, p) matches Some(q) ==> p <= q < s.len() && heading_number_end(s, q) is Some,
    decreases s.len() - p,
{
    if p < s.len() && heading_number_end(s, p) is None {
        lemma_next_heading(s, p + 1);
    }
}

pub proof fn lemma_heading_bounds(s: Seq<char>, p: int)
    requires
        0 <= p,
        heading_number_end(s, p) is Some,
    ensures
        p + 10 < heading_number_end(s, p)->0,
        heading_number_end(s, p)->0 + 2 < s.len(),
        heading_number_end(s, p)->0 + 3 <= char_pos(s, '\n', heading_number_end(s, p)->0 + 2),
        char_pos(s, '\n', heading_number_end(s, p)->0 + 2) <= s.len(),
{
    let q = p + 10;
    lemma_digit_run(s, q);
    let d1 = digit_run(s, q);
    if d1 < s.len() && s[d1] == '.' {
        lemma_digit_run(s, d1 + 1);
    }
    let ne = heading_number_end(s, p)->0;
    lemma_char_pos(s, '\n', ne + 2);
}

/// A heading match: its start, the end of its number and the end of its line.
pub struct HeadingMatch {
    pub start: int,
    pub number_end: int,
    pub end: int,
}

/// The successive heading matches from `p` on (`Regex::captures_iter`).
pub open spec fn headings_from(s: Seq<char>, p: int) -> Seq<HeadingMatch>
    decreases s.len() - p,
{
    if p < 0 {
        Seq::empty()
    } else {
        match next_heading(s, p) {
            None => Seq::empty(),
            Some(q) => {
                proof {
                    lemma_next_heading(s, p);
                    lemma_heading_bounds(s, q);
                }
                let ne = heading_number_end(s, q)->0;
                let e = char_pos(s, '\n', ne + 2);
                seq![HeadingMatch { start: q, number_end: ne, end: e }] + headings_from(s, e)
            },
        }
    }
}

pub open spec fn same_heading(t: (usize, usize, usize), h: HeadingMatch) -> bool {
    t.0 == h.start && t.1 == h.number_end && t.2 == h.end
}

fn heading_number_end_exec(s: &[char], p: usize, prefix: &[char]) -> (r: Option<usize>)
    requires
        prefix@ == heading_prefix(),
    ensures
        match r {
            Some(ne) => heading_number_end(s@, p as int) == Some(ne as int),
            None => heading_number_end(s@, p as int) is None,
        },
{
    if !crate::text::has_at(s, p, prefix) {
        return None;
    }
    let n = s.len();
    let q = p + 10;
    let d1 = digit_run_exec(s, q);
    proof {
        lemma_digit_run(s@, q as int);
    }
    if d1 == q {
        return None;
    }
    let ne = if d1 < n && s[d1] == '.' {
        let d2 = digit_run_exec(s, d1 + 1);
        if d2 > d1 + 1 {
            d2
        } else {
            d1
        }
    } else {
        d1
    };
    proof {
        if d1 < n && s@[d1 as int] == '.' {
            lemma_digit_run(s@, d1 + 1);
        }
    }
    if ne < n && n - ne > 2 && s[ne] == ':' && s[ne + 1] == ' ' && s[ne + 2] != '\n' {
        Some(ne)
    } else {
        None
    }
}

/// The heading matches of the whole text.
fn find_headings(s: &[char]) -> (r: Vec<(usize, usize, usize)>)
    ensures
        r@.len() == headings_from(s@, 0).len(),
        forall|k: int| 0 <= k < r@.len() ==> same_heading(#[trigger] r@[k], headings_from(s@, 0)[k]),
{
    let prefix = vec!['#', '#', '#', ' ', 'P', 'h', 'a', 's', 'e', ' '];
    let mut out: Vec<(usize, usize, usize)> = Vec::new();
    let ghost all = headings_from(s@, 0);
    let mut p: usize = 0;
    let mut q: usize = 0;
    let n = s.len();
    loop
        invariant
            n == s@.len(),
            p <= q <= n,
            prefix@ == heading_prefix(),
            all == headings_from(s@, 0),
            next_heading(s@, q as int) == next_heading(s@, p as int),
            out@.len() + headings_from(s@, p as int).len() == all.len(),
            forall|k: int| 0 <= k < out@.len() ==> same_heading(#[trigger] out@[k], all[k]),
            forall|k: int|
                0 <= k < headings_from(s@, p as int).len() ==> all[out@.len() + k]
                    == #[trigger] headings_from(s@, p as int)[k],
        decreases n - q,
    {
        if q >= n {
            assert(next_heading(s@, q as int) is None);
            assert(headings_from(s@, p as int).len() == 0);
            return out;
        }
        match heading_number_end_exec(s, q, &prefix) {
            Some(ne) => {
                proof {
                    assert(next_heading(s@, q as int) == Some(q as int));
                    lemma_heading_bounds(s@, q as int);
                }
                let e = find_char(s, '\n', ne + 2);
                let ghost rest = headings_from(s@, p as int);
                proof {
                    assert(rest == seq![
                        HeadingMatch { start: q as int, number_end: ne as int, end: e as int },
                    ] + headings_from(s@, e as int));
                }
                out.push((q, ne, e));
                proof {
                    assert forall|k: int| 0 <= k < headings_from(s@, e as int).len() implies all[out@.len()
                        + k] == #[trigger] headings_from(s@, e as int)[k] by {
                        assert(all[(out@.len() - 1) + (k + 1)] == rest[k + 1]);
                    }
                    assert(all[out@.len() - 1] == rest[0]);
                }
                p = e;
                q = e;
            },
            None => {
                assert(next_heading(s@, q as int) == next_heading(s@, q + 1));
                q = q + 1;
            },
        }
    }
}

pub open spec fn heading_wf(s: Seq<char>, h: HeadingMatch) -> bool {
    0 <= h.start && h.start + 10 < h.number_end && h.number_end + 3 <= h.end <= s.len()
}

pub proof fn lemma_headings_wf(s: Seq<char>, p: int)
    requires
        0 <= p,
    ensures
        forall|k: int|
            0 <= k < headings_from(s, p).len() ==> p <= (#[trigger] headings_from(s, p)[k]).start
                && heading_wf(s, headings_from(s, p)[k]),
        forall|k: int|
            0 <= k < headings_from(s, p).len() - 1 ==> (#[trigger] headings_from(s, p)[k]).end
                <= headings_from(s, p)[k + 1].start,
    decreases s.len() - p,
{
    match next_heading(s, p) {
        None => {},
        Some(q) => {
            lemma_next_heading(s, p);
            lemma_heading_bounds(s, q);
            let ne = heading_number_end(s, q)->0;
            let e = char_pos(s, '\n', ne + 2);
            lemma_headings_wf(s, e);
            let hs = headings_from(s, p);
            let rest = headings_from(s, e);
            assert(hs == seq![HeadingMatch { start: q, number_end: ne, end: e }] + rest);
            assert forall|k: int| 0 <= k < hs.len() implies p <= (#[trigger] hs[k]).start
                && heading_wf(s, hs[k]) by {
                if k > 0 {
                    assert(hs[k] == rest[k - 1]);
                }
            }
            assert forall|k: int| 0 <= k < hs.len() - 1 implies (#[trigger] hs[k]).end
                <= hs[k + 1].start by {
                assert(hs[k + 1] == rest[k]);
                if k > 0 {
                    assert(hs[k] == rest[k - 1]);
                }
            }
        },
    }
}

/// Where the section of heading `k` ends: at the next heading, or else at the
/// next `## ` heading line, or at the end of the text.
pub open spec fn section_end(s: Seq<char>, hs: Seq<HeadingMatch>, k: int) -> int {
    if k + 1 < hs.len() {
        hs[k + 1].start
    } else {
        match find_from(s, "\n## "@, hs[k].end) {
            Some(f) => f,
            None => s.len() as int,
        }
    }
}

/// The phase entry of heading `k`: its number, its trimmed name, the
/// metadata of its section and whether the progress table marks it
/// complete.
pub open spec fn phase_at(s: Seq<char>, hs: Seq<HeadingMatch>, k: int) -> PhaseEntryView {
    let h = hs[k];
    let number = s.subrange(h.start + 10, h.number_end);
    phase_spec(
        number,
        trim(s.subrange(h.number_end + 2, h.end)),
        s.subrange(h.end, section_end(s, hs, k)),
        marked_complete(s, number),
    )
}

/// The phase entries in the order of their headings.
pub open spec fn phases_in_order(s: Seq<char>) -> Seq<PhaseEntryView> {
    let hs = headings_from(s, 0);
    Seq::new(hs.len(), |k: int| phase_at(s, hs, k))
}

/// Parse all phase entries, in the order of their headings.
fn parse_phase_entries_in_order(content: &[char]) -> (r: Vec<PhaseEntry>)
    ensures
        r@.map_values(|p: PhaseEntry| p@) == phases_in_order(content@),
{
    let hs = find_headings(content);
    let ghost all = headings_from(content@, 0);
    proof {
        lemma_headings_wf(content@, 0);
    }
    let marker = chars_of("\n## ");
    let n = content.len();
    let mut out: Vec<PhaseEntry> = Vec::new();
    let mut k: usize = 0;
    while k < hs.len()
        invariant
            n == content@.len(),
            all == headings_from(content@, 0),
            hs@.len() == all.len(),
            marker@ == "\n## "@,
            forall|i: int| 0 <= i < hs@.len() ==> same_heading(#[trigger] hs@[i], all[i]),
            forall|i: int|
                0 <= i < all.len() ==> 0 <= (#[trigger] all[i]).start && heading_wf(
                    content@,
                    all[i],
                ),
            forall|i: int| 0 <= i < all.len() - 1 ==> (#[trigger] all[i]).end <= all[i + 1].start,
            k <= hs@.len(),
            out@.len() == k,
            forall|i: int| 0 <= i < k ==> (#[trigger] out@[i])@ == phase_at(content@, all, i),
        decreases hs@.len() - k,
    {
        let (start, ne, e) = hs[k];
        proof {
            assert(same_heading(hs@[k as int], all[k as int]));
            assert(heading_wf(content@, all[k as int]));
        }
        let se = if k + 1 < hs.len() {
            proof {
                assert(same_heading(hs@[k + 1], all[k + 1]));
            }
            hs[k + 1].0
        } else {
            match find_pattern(content, &marker, e) {
                Some(f) => {
                    proof {
                        lemma_find_from(content@, marker@, e as int);
                    }
                    f
                },
                None => n,
            }
        };
        let number = slice_range(content, start + 10, ne);
        let name = trim_chars(&slice_range(content, ne + 2, e));
        let section = slice_range(content, e, se);
        let completed = phase_marked_complete(content, &number);
        let entry = parse_single_phase(&number, &name, &section, completed);
        out.push(entry);
        k = k + 1;
    }
    proof {
        assert(out@.map_values(|p: PhaseEntry| p@) =~= phases_in_order(content@));
    }
    out
}

// ---------------------------------------------------------------------------
// Ordering phases by number
// ---------------------------------------------------------------------------

/// Index of the first char at or after `i` that is not `0`.
pub open spec fn zeros_end(s: Seq<char>, i: int) -> int
    decreases s.len() - i,
{
    if 0 <= i < s.len() && s[i] == '0' {
        zeros_end(s, i + 1)
    } else {
        i
    }
}

/// Walking back from `j`, the index after the last char that is not `0`.
pub open spec fn rzeros_end(s: Seq<char>, j: int) -> int
    decreases j,
{
    if 0 < j <= s.len() && s[j - 1] == '0' {
        rzeros_end(s, j - 1)
    } else {
        j
    }
}

/// The value of a phase number as a decimal number, by which phases are
/// ordered, as two digit strings: the integer digits without leading zeros
/// and the fraction digits without trailing zeros. A number that is not made
/// of ASCII digits (with one optional `.`) reads as zero.
pub open spec fn number_key(n: Seq<char>) -> (Seq<char>, Seq<char>) {
    let d = char_pos(n, '.', 0);
    let ip = n.take(d);
    let fp = if d < n.len() {
        n.skip(d + 1)
    } else {
        Seq::empty()
    };
    if crate::text::all_ascii_digits(ip) && crate::text::all_ascii_digits(fp) {
        (ip.skip(zeros_end(ip, 0)), fp.take(rzeros_end(fp, fp.len() as int)))
    } else {
        (Seq::empty(), Seq::empty())
    }
}

/// Lexicographic order of digit strings (a proper prefix is smaller).
pub open spec fn lex_lt(x: Seq<char>, y: Seq<char>) -> bool
    decreases x.len(),
{
    if y.len() == 0 {
        false
    } else if x.len() == 0 {
        true
    } else if x[0] != y[0] {
        x[0] < y[0]
    } else {
        lex_lt(x.drop_first(), y.drop_first())
    }
}

/// `a` is a smaller number than `b`: fewer integer digits, or as many and
/// smaller integer digits, or the same integer part and a smaller fraction.
pub open spec fn key_lt(a: (Seq<char>, Seq<char>), b: (Seq<char>, Seq<char>)) -> bool {
    ||| a.0.len() < b.0.len()
    ||| a.0.len() == b.0.len() && lex_lt(a.0, b.0)
    ||| a.0 == b.0 && lex_lt(a.1, b.1)
}

pub open spec fn phase_lt(a: PhaseEntryView, b: PhaseEntryView) -> bool {
    key_lt(number_key(a.number), number_key(b.number))
}

/// Of two different texts, one comes first.
pub proof fn lemma_lex_total_any(x: Seq<char>, y: Seq<char>)
    ensures
        x == y || lex_lt(x, y) || lex_lt(y, x),
    decreases x.len(),
{
    if x.len() > 0 && y.len() > 0 && x[0] == y[0] {
        lemma_lex_total_any(x.drop_first(), y.drop_first());
        if x.drop_first() == y.drop_first() {
            assert(x =~= seq![x[0]] + x.drop_first());
            assert(y =~= seq![y[0]] + y.drop_first());
        }
    } else if x.len() == 0 && y.len() == 0 {
        assert(x =~= y);
    }
}

/// The order of texts is transitive.
pub proof fn lemma_lex_trans(x: Seq<char>, y: Seq<char>, z: Seq<char>)
    requires
        lex_lt(x, y),
        lex_lt(y, z),
    ensures
        lex_lt(x, z),
    decreases x.len(),
{
    if x.len() > 0 && y.len() > 0 && z.len() > 0 && x[0] == y[0] && y[0] == z[0] {
        lemma_lex_trans(x.drop_first(), y.drop_first(), z.drop_first());
    }
}

pub proof fn lemma_lex_asym(x: Seq<char>, y: Seq<char>)
    ensures
        lex_lt(x, y) ==> !lex_lt(y, x),
        lex_lt(x, y) ==> x != y,
    decreases x.len(),
{
    if x.len() > 0 && y.len() > 0 && x[0] == y[0] {
        lemma_lex_asym(x.drop_first(), y.drop_first());
        if x == y {
            assert(x.drop_first() == y.drop_first());
        }
    }
}

proof fn lemma_lex_total(x: Seq<char>, y: Seq<char>)
    requires
        x.len() == y.len(),
    ensures
        x == y || lex_lt(x, y) || lex_lt(y, x),
    decreases x.len(),
{
    if x.len() > 0 && x[0] == y[0] {
        lemma_lex_total(x.drop_first(), y.drop_first());
        if x.drop_first() == y.drop_first() {
            assert(x =~= seq![x[0]] + x.drop_first());
            assert(y =~= seq![y[0]] + y.drop_first());
        }
    }
    if x.len() == 0 {
        assert(x =~= y);
    }
}

proof fn lemma_key_asym(a: (Seq<char>, Seq<char>), b: (Seq<char>, Seq<char>))
    ensures
        key_lt(a, b) ==> !key_lt(b, a),
{
    lemma_lex_asym(a.0, b.0);
    lemma_lex_asym(b.0, a.0);
    lemma_lex_asym(a.1, b.1);
    lemma_lex_asym(b.1, a.1);
}

/// `order` lists each index below its length once, places no entry after a
/// smaller one, and keeps entries whose numbers are equal in their input
/// order: an entry is placed before one that came earlier only when its
/// number is smaller.
pub open spec fn stable_sorted_order(v: Seq<PhaseEntryView>, order: Seq<int>) -> bool {
    &&& order.len() == v.len()
    &&& forall|i: int| 0 <= i < order.len() ==> 0 <= #[trigger] order[i] < v.len()
    &&& forall|i: int, j: int| 0 <= i < j < order.len() ==> order[i] != order[j]
    &&& forall|i: int|
        0 <= i < order.len() - 1 ==> !phase_lt(v[order[i + 1]], #[trigger] v[order[i]])
    &&& forall|i: int, j: int|
        0 <= i < j < order.len() && order[i] > order[j] ==> phase_lt(
            v[order[i]],
            v[order[j]],
        )
}

pub fn lex_less(x: &[char], y: &[char]) -> (r: bool)
    ensures
        r == lex_lt(x@, y@),
{
    let mut i: usize = 0;
    assert(x@.skip(0) =~= x@);
    assert(y@.skip(0) =~= y@);
    loop
        invariant
            i <= x@.len(),
            i <= y@.len(),
            lex_lt(x@.skip(i as int), y@.skip(i as int)) == lex_lt(x@, y@),
        decreases x@.len() - i,
    {
        if i >= y.len() {
            return false;
        }
        if i >= x.len() {
            return true;
        }
        if x[i] != y[i] {
            return x[i] < y[i];
        }
        proof {
            assert(x@.skip(i as int).drop_first() =~= x@.skip(i + 1));
            assert(y@.skip(i as int).drop_first() =~= y@.skip(i + 1));
        }
        i = i + 1;
    }
}

fn key_less(a: &(Vec<char>, Vec<char>), b: &(Vec<char>, Vec<char>)) -> (r: bool)
    ensures
        r == key_lt((a.0@, a.1@), (b.0@, b.1@)),
{
    let al = a.0.len();
    let bl = b.0.len();
    if al < bl {
        return true;
    }
    if al == bl && lex_less(&a.0, &b.0) {
        return true;
    }
    crate::text::same_chars(&a.0, &b.0) && lex_less(&a.1, &b.1)
}

fn number_key_exec(n: &[char]) -> (r: (Vec<char>, Vec<char>))
    ensures
        (r.0@, r.1@) == number_key(n@),
{
    let d = find_char(n, '.', 0);
    proof {
        lemma_char_pos(n@, '.', 0);
    }
    let ip = slice_range(n, 0, d);
    let fp = if d < n.len() {
        slice_range(n, d + 1, n.len())
    } else {
        Vec::new()
    };
    proof {
        assert(ip@ == n@.take(d as int));
        if d < n@.len() {
            assert(fp@ == n@.skip(d + 1));
        } else {
            assert(fp@ =~= Seq::<char>::empty());
        }
    }
    let mut ok = true;
    let mut k: usize = 0;
    while k < ip.len()
        invariant
            k <= ip@.len(),
            ok == (forall|j: int| 0 <= j < k ==> crate::text::is_ascii_digit(#[trigger] ip@[j])),
        decreases ip@.len() - k,
    {
        if !('0' <= ip[k] && ip[k] <= '9') {
            ok = false;
        }
        k = k + 1;
    }
    let mut k: usize = 0;
    while k < fp.len()
        invariant
            k <= fp@.len(),
            ok == ((forall|j: int| 0 <= j < ip@.len() ==> crate::text::is_ascii_digit(
                #[trigger] ip@[j],
            )) && (forall|j: int| 0 <= j < k ==> crate::text::is_ascii_digit(#[trigger] fp@[j]))),
        decreases fp@.len() - k,
    {
        if !('0' <= fp[k] && fp[k] <= '9') {
            ok = false;
        }
        k = k + 1;
    }
    if !ok {
        return (Vec::new(), Vec::new());
    }
    let mut a: usize = 0;
    while a < ip.len() && ip[a] == '0'
        invariant
            a <= ip@.len(),
            zeros_end(ip@, a as int) == zeros_end(ip@, 0),
        decreases ip@.len() - a,
    {
        a = a + 1;
    }
    let mut b: usize = fp.len();
    while b > 0 && fp[b - 1] == '0'
        invariant
            b <= fp@.len(),
            rzeros_end(fp@, b as int) == rzeros_end(fp@, fp@.len() as int),
        decreases b,
    {
        b = b - 1;
    }
    (slice_range(&ip, a, ip.len()), slice_range(&fp, 0, b))
}

pub open spec fn entry_views(v: Seq<PhaseEntry>) -> Seq<PhaseEntryView> {
    v.map_values(|p: PhaseEntry| p@)
}

/// Sort phases by number (stable; numbers compared by value).
fn sort_phases(entries: Vec<PhaseEntry>) -> (r: Vec<PhaseEntry>)
    ensures
        exists|order: Seq<int>|
            stable_sorted_order(entry_views(entries@), order) && entry_views(r@) == order.map_values(
                |i: int| entry_views(entries@)[i],
            ),
{
    let ghost v = entry_views(entries@);
    let n = entries.len();
    let mut input = entries;
    let mut result: Vec<PhaseEntry> = Vec::new();
    let mut keys: Vec<(Vec<char>, Vec<char>)> = Vec::new();
    let ghost mut order: Seq<int> = Seq::empty();
    let mut idx: usize = 0;
    while idx < n
        invariant
            v.len() == n,
            idx <= n,
            input@.len() == n - idx,
            forall|t: int| 0 <= t < input@.len() ==> (#[trigger] input@[t])@ == v[idx + t],
            result@.len() == idx,
            keys@.len() == idx,
            order.len() == idx,
            forall|t: int| 0 <= t < idx ==> 0 <= #[trigger] order[t] < idx,
            forall|t: int, u: int| 0 <= t < u < idx ==> order[t] != order[u],
            forall|t: int| 0 <= t < idx ==> (#[trigger] result@[t])@ == v[order[t]],
            forall|t: int|
                0 <= t < idx ==> ((#[trigger] keys@[t]).0@, keys@[t].1@) == number_key(
                    v[order[t]].number,
                ),
            forall|t: int| 0 <= t < idx - 1 ==> !phase_lt(v[order[t + 1]], #[trigger] v[order[t]]),
            forall|t: int, u: int|
                0 <= t < u < idx && order[t] > order[u] ==> phase_lt(v[order[t]], v[order[u]]),
        decreases n - idx,
    {
        let ghost before = input@;
        let x = input.remove(0);
        proof {
            assert(x@ == v[idx as int]);
            assert forall|t: int| 0 <= t < input@.len() implies (#[trigger] input@[t])@ == v[idx + 1
                + t] by {
                assert(input@[t] == before[t + 1]);
            }
        }
        let xn = chars_of(x.number.as_str());
        let kx = number_key_exec(&xn);
        let mut j = result.len();
        while j > 0 && key_less(&kx, &keys[j - 1])
            invariant
                j <= idx,
                keys@.len() == idx,
                forall|t: int|
                    j <= t < idx ==> key_lt((kx.0@, kx.1@), ((#[trigger] keys@[t]).0@, keys@[t].1@)),
            decreases j,
        {
            j = j - 1;
        }
        proof {
            assert forall|t: int| j <= t < idx implies phase_lt(v[idx as int], v[order[t]]) by {
                assert(key_lt((kx.0@, kx.1@), (keys@[t].0@, keys@[t].1@)));
            }
            if j > 0 {
                assert(!key_lt((kx.0@, kx.1@), (keys@[j - 1].0@, keys@[j - 1].1@)));
                assert(!phase_lt(v[idx as int], v[order[j - 1]]));
            }
        }
        let ghost old_order = order;
        let ghost old_result = result@;
        let ghost old_keys = keys@;
        result.insert(j, x);
        keys.insert(j, kx);
        proof {
            order = order.insert(j as int, idx as int);
            assert forall|t: int| 0 <= t <= idx implies #[trigger] order[t] == (if t < j {
                old_order[t]
            } else if t == j {
                idx as int
            } else {
                old_order[t - 1]
            }) by {}
            assert forall|t: int| 0 <= t <= idx implies #[trigger] result@[t] == (if t < j {
                old_result[t]
            } else if t == j {
                x
            } else {
                old_result[t - 1]
            }) by {}
            assert forall|t: int| 0 <= t <= idx implies #[trigger] keys@[t] == (if t < j {
                old_keys[t]
            } else if t == j {
                kx
            } else {
                old_keys[t - 1]
            }) by {}
            assert forall|t: int| 0 <= t < idx + 1 - 1 implies !phase_lt(
                v[order[t + 1]],
                #[trigger] v[order[t]],
            ) by {
                if t == j {
                    lemma_key_asym(number_key(v[idx as int].number), number_key(v[order[t + 1]].number));
                }
            }
            assert forall|t: int, u: int|
                0 <= t < u < idx + 1 && order[t] > order[u] implies phase_lt(
                v[order[t]],
                v[order[u]],
            ) by {
                if t == j {
                    assert(order[u] == old_order[u - 1]);
                } else if u == j {
                    assert(order[t] < idx);
                } else {
                    let ot = if t < j { t } else { t - 1 };
                    let ou = if u < j { u } else { u - 1 };
                    assert(order[t] == old_order[ot]);
                    assert(order[u] == old_order[ou]);
                }
            }
            assert forall|t: int, u: int| 0 <= t < u < idx + 1 implies order[t] != order[u] by {
                if t != j && u != j {
                    let ot = if t < j { t } else { t - 1 };
                    let ou = if u < j { u } else { u - 1 };
                    assert(order[t] == old_order[ot]);
                    assert(order[u] == old_order[ou]);
                }
            }
        }
        idx = idx + 1;
    }
    proof {
        assert(entry_views(result@) =~= order.map_values(|i: int| v[i]));
        assert(stable_sorted_order(v, order));
    }
    result
}

// ---------------------------------------------------------------------------
// Execution order: `**Execution Order:**` (any letter case), whitespace
// including a line break, then the text of the next line
// ---------------------------------------------------------------------------

pub open spec fn order_label() -> Seq<char> {
    seq![
        '*', '*', 'E', 'x', 'e', 'c', 'u', 't', 'i', 'o', 'n', ' ', 'O', 'r', 'd', 'e', 'r', ':',
        '*', '*',
    ]
}

/// The code of a char with ASCII upper-case letters lowered.
pub open spec fn lower_code(c: char) -> u32 {
    if 'A' <= c <= 'Z' {
        ((c as u32) + 32) as u32
    } else {
        c as u32
    }
}

/// `p` matches `c` with letter case ignored.
pub open spec fn ci_eq(p: char, c: char) -> bool {
    lower_code(p) == lower_code(c)
}

pub open spec fn ci_occurs_at(s: Seq<char>, p: Seq<char>, i: int) -> bool {
    &&& 0 <= i
    &&& i + p.len() <= s.len()
    &&& forall|k: int| 0 <= k < p.len() ==> ci_eq(#[trigger] p[k], s[i + k])
}

/// The last line break in `s[lo..j]` that is followed by a char other than
/// a line break.
pub open spec fn last_break(s: Seq<char>, lo: int, j: int) -> Option<int>
    decreases j - lo,
{
    if j <= lo {
        None
    } else if s[j - 1] == '\n' && j < s.len() && s[j] != '\n' {
        Some(j - 1)
    } else {
        last_break(s, lo, j - 1)
    }
}

/// The line break after which the execution order text starts, when the
/// label matches at `p`.
pub open spec fn order_break_at(s: Seq<char>, p: int) -> Option<int> {
    if ci_occurs_at(s, order_label(), p) {
        let a = p + 20;
        last_break(s, a, skip_ws(s, a))
    } else {
        None
    }
}

/// The execution order text found at or after `p`.
pub open spec fn execution_order_from(s: Seq<char>, p: int) -> Option<Seq<char>>
    decreases s.len() - p,
{
    if p < 0 || p + 20 > s.len() {
        None
    } else {
        match order_break_at(s, p) {
            Some(k) => Some(trim(s.subrange(k + 1, char_pos(s, '\n', k + 1)))),
            None => execution_order_from(s, p + 1),
        }
    }
}

proof fn lemma_last_break(s: Seq<char>, lo: int, j: int)
    requires
        0 <= lo <= j <= s.len(),
    ensures
        last_break(s, lo, j) matches Some(k) ==> lo <= k < j && k + 1 < s.len() && s[k] == '\n',
    decreases j - lo,
{
    if j > lo && !(s[j - 1] == '\n' && j < s.len() && s[j] != '\n') {
        lemma_last_break(s, lo, j - 1);
    }
}

fn find_last_break(s: &[char], lo: usize, hi: usize) -> (r: Option<usize>)
    requires
        lo <= hi <= s@.len(),
    ensures
        match r {
            Some(k) => last_break(s@, lo as int, hi as int) == Some(k as int),
            None => last_break(s@, lo as int, hi as int) is None,
        },
{
    let n = s.len();
    let mut j = hi;
    while j > lo
        invariant
            lo <= j <= hi <= n,
            n == s@.len(),
            last_break(s@, lo as int, hi as int) == last_break(s@, lo as int, j as int),
        decreases j,
    {
        if s[j - 1] == '\n' && j < n && s[j] != '\n' {
            return Some(j - 1);
        }
        j = j - 1;
    }
    None
}

fn ci_label_at(s: &[char], p: usize, label: &[char]) -> (r: bool)
    requires
        label@ == order_label(),
    ensures
        r == ci_occurs_at(s@, order_label(), p as int),
{
    if p > s.len() || s.len() - p < 20 {
        return false;
    }
    let mut k: usize = 0;
    while k < 20
        invariant
            label@ == order_label(),
            p + 20 <= s@.len(),
            s@.len() == s.len(),
            k <= 20,
            forall|i: int| 0 <= i < k ==> ci_eq(#[trigger] order_label()[i], s@[p + i]),
        decreases 20 - k,
    {
        let a = label[k];
        let b = s[p + k];
        let la: u32 = if 'A' <= a && a <= 'Z' {
            (a as u32) + 32
        } else {
            a as u32
        };
        let lb: u32 = if 'A' <= b && b <= 'Z' {
            (b as u32) + 32
        } else {
            b as u32
        };
        if la != lb {
            return false;
        }
        k = k + 1;
    }
    true
}

/// Extract the execution order text from the Progress section.
fn parse_execution_order(content: &[char]) -> (r: Option<Vec<char>>)
    ensures
        match r {
            Some(v) => execution_order_from(content@, 0) == Some(v@),
            None => execution_order_from(content@, 0) is None,
        },
{
    let label: Vec<char> = vec![
        '*', '*', 'E', 'x', 'e', 'c', 'u', 't', 'i', 'o', 'n', ' ', 'O', 'r', 'd', 'e', 'r', ':',
        '*', '*',
    ];
    let n = content.len();
    let mut p: usize = 0;
    while p < n && n - p >= 20
        invariant
            n == content@.len(),
            label@ == order_label(),
            execution_order_from(content@, p as int) == execution_order_from(content@, 0),
        decreases n - p,
    {
        if ci_label_at(content, p, &label) {
            let a = p + 20;
            let w = skip_whitespace(content, a);
            proof {
                lemma_skip_ws_bounds(content@, a as int);
            }
            let found = find_last_break(content, a, w);
            match found {
                Some(k) => {
                    proof {
                        lemma_last_break(content@, a as int, w as int);
                    }
                    let e = find_char(content, '\n', k + 1);
                    proof {
                        lemma_char_pos(content@, '\n', k + 1);
                    }
                    return Some(trim_chars(&slice_range(content, k + 1, e)));
                },
                None => {},
            }
        }
        p = p + 1;
    }
    None
}

// ---------------------------------------------------------------------------
// The whole roadmap
// ---------------------------------------------------------------------------

/// Complete parsed data from a ROADMAP.md file.
pub struct RoadmapData {
    /// All phase entries, sorted by phase number
    pub phases: Vec<PhaseEntry>,
    /// Execution order description
    pub execution_order: Option<String>,
}

/// The phases of a roadmap as `parse_roadmap` returns them: the entries of
/// the headings, stably sorted by number.
pub open spec fn sorted_phases(content: Seq<char>, phases: Seq<PhaseEntryView>) -> bool {
    exists|order: Seq<int>|
        stable_sorted_order(phases_in_order(content), order) && phases == order.map_values(
            |i: int| phases_in_order(content)[i],
        )
}

/// Parse a ROADMAP.md file content into structured data.
pub fn parse_roadmap(content: &str) -> (r: Result<RoadmapData, ParseError>)
    ensures
        r is Err <==> trim(content@).len() == 0,
        r matches Err(e) ==> e matches ParseError::InvalidContent(m) && m@
            == "ROADMAP.md content is empty"@,
        r matches Ok(d) ==> sorted_phases(content@, entry_views(d.phases@)),
        r matches Ok(d) ==> crate::json::opt_string_view(d.execution_order)
            == execution_order_from(content@, 0),
{
    let c = chars_of(content);
    let t = trim_chars(&c);
    if t.len() == 0 {
        return Err(ParseError::InvalidContent(String::from_str("ROADMAP.md content is empty")));
    }
    let in_order = parse_phase_entries_in_order(&c);
    proof {
        assert(entry_views(in_order@) == phases_in_order(c@));
    }
    let phases = sort_phases(in_order);
    let execution_order = match parse_execution_order(&c) {
        Some(v) => Some(string_of(&v)),
        None => None,
    };
    Ok(RoadmapData { phases, execution_order })
}

} // verus!
