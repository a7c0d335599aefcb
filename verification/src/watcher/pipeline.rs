//! The decisions of the parse pipeline: which parser a changed file goes to,
//! how phase numbers are normalized, where a file's phase directory is, and
//! the rows and state changes that a parsed file produces.
use vstd::prelude::*;

use crate::classes::{digit_run, digit_run_exec, lemma_digit_run};
use crate::parser::plan::PlanMdData;
use crate::parser::roadmap::{PhaseEntry, PlanListItem};
use crate::parser::stage::contains;
use crate::parser::summary::{join, join_strings};
use crate::json::strings_view;
use crate::text::{
    all_ascii_digits, char_pos, chars_of, decimal, decimal_chars, digit_char, digits_value,
    find_char, find_pattern, has_at, is_ascii_digit, lemma_char_pos, parse_unsigned,
    parse_unsigned_spec, same_chars, slice_range, string_of,
};

verus! {

// ---------------------------------------------------------------------------
// State updates
// ---------------------------------------------------------------------------
/// A state change event broadcast to WebSocket clients.
#[derive(Debug)]
pub struct StateUpdate {
    /// The project this change belongs to
    pub project_id: String,
    /// The specific change that occurred
    pub change: StateChange,
}

/// Specific kinds of state changes.
#[derive(Debug)]
pub enum StateChange {
    PhaseUpdated { phase_number: String, stage: String },
    PlanUpdated { phase_number: String, plan_number: String, status: String },
    VerificationUpdated { phase_number: String, status: String },
    ConfigUpdated,
    AgentHistoryUpdated { session_count: usize },
    ProjectStateUpdated { status: Option<String> },
    ParseError { file_path: String, error: String },
}

// ---------------------------------------------------------------------------
// File type classification
// ---------------------------------------------------------------------------
/// The parser a planning file goes to, with the numbers its name carries.
#[derive(Debug)]
pub enum FileType {
    StateMd,
    RoadmapMd,
    PlanMd { phase_number: String, plan_number: String },
    SummaryMd { phase_number: String, plan_number: String },
    VerificationMd { phase_number: String },
    ContextOrResearch { phase_number: String },
    ConfigJson,
    AgentHistory,
    Unknown,
}

/// A file type as plain values.
pub enum FileTypeView {
    StateMd,
    RoadmapMd,
    PlanMd(Seq<char>, Seq<char>),
    SummaryMd(Seq<char>, Seq<char>),
    VerificationMd(Seq<char>),
    ContextOrResearch(Seq<char>),
    ConfigJson,
    AgentHistory,
    Unknown,
}

impl View for FileType {
    type V = FileTypeView;

    open spec fn view(&self) -> FileTypeView {
        match self {
            FileType::StateMd => FileTypeView::StateMd,
            FileType::RoadmapMd => FileTypeView::RoadmapMd,
            FileType::PlanMd { phase_number, plan_number } => FileTypeView::PlanMd(
                phase_number@,
                plan_number@,
            ),
            FileType::SummaryMd { phase_number, plan_number } => FileTypeView::SummaryMd(
                phase_number@,
                plan_number@,
            ),
            FileType::VerificationMd { phase_number } => FileTypeView::VerificationMd(
                phase_number@,
            ),
            FileType::ContextOrResearch { phase_number } => FileTypeView::ContextOrResearch(
                phase_number@,
            ),
            FileType::ConfigJson => FileTypeView::ConfigJson,
            FileType::AgentHistory => FileTypeView::AgentHistory,
            FileType::Unknown => FileTypeView::Unknown,
        }
    }
}

/// `^(\d+)-(\d+)<tail>$`: the ends of the two numbers.
pub open spec fn two_numbers(s: Seq<char>, tail: Seq<char>) -> Option<(int, int)> {
    let p = digit_run(s, 0);
    let q = digit_run(s, p + 1);
    if p > 0 && p < s.len() && s[p] == '-' && q > p + 1 && s.skip(q) == tail {
        Some((p, q))
    } else {
        None
    }
}

/// `^(\d+)<tail>$`: the end of the number.
pub open spec fn one_number(s: Seq<char>, tail: Seq<char>) -> Option<int> {
    let p = digit_run(s, 0);
    if p > 0 && s.skip(p) == tail {
        Some(p)
    } else {
        None
    }
}

/// The type of a planning file from its name. Each numbered pattern is
/// anchored at both ends, and `\d+` runs to the next `-`.
pub open spec fn classify_spec(s: Seq<char>) -> FileTypeView {
    if s == "STATE.md"@ {
        FileTypeView::StateMd
    } else if s == "ROADMAP.md"@ {
        FileTypeView::RoadmapMd
    } else if s == "config.json"@ {
        FileTypeView::ConfigJson
    } else if s == "agent-history.json"@ {
        FileTypeView::AgentHistory
    } else if let Some((p, q)) = two_numbers(s, "-PLAN.md"@) {
        FileTypeView::PlanMd(s.take(p), s.subrange(p + 1, q))
    } else if let Some((p, q)) = two_numbers(s, "-SUMMARY.md"@) {
        FileTypeView::SummaryMd(s.take(p), s.subrange(p + 1, q))
    } else if let Some(p) = one_number(s, "-VERIFICATION.md"@) {
        FileTypeView::VerificationMd(s.take(p))
    } else if let Some(p) = one_number(s, "-CONTEXT.md"@) {
        FileTypeView::ContextOrResearch(s.take(p))
    } else if let Some(p) = one_number(s, "-RESEARCH.md"@) {
        FileTypeView::ContextOrResearch(s.take(p))
    } else {
        FileTypeView::Unknown
    }
}

/// Whether `s[at..]` reads `tail`.
fn rest_is(s: &[char], at: usize, tail: &[char]) -> (r: bool)
    requires
        at <= s@.len(),
    ensures
        r == (s@.skip(at as int) == tail@),
{
    let n = s.len();
    if n - at != tail.len() {
        proof {
            assert(s@.skip(at as int).len() != tail@.len());
        }
        return false;
    }
    let r = has_at(s, at, tail);
    proof {
        if r {
            assert(s@.skip(at as int) =~= s@.subrange(at as int, at + tail@.len()));
        } else {
            assert(s@.skip(at as int) =~= s@.subrange(at as int, at + tail@.len()));
        }
    }
    r
}

fn two_numbers_exec(s: &[char], tail: &[char]) -> (r: Option<(usize, usize)>)
    ensures
        match r {
            Some((p, q)) => two_numbers(s@, tail@) == Some((p as int, q as int)) && p < q <= s@.len(),
            None => two_numbers(s@, tail@) is None,
        },
{
    let p = digit_run_exec(s, 0);
    proof {
        lemma_digit_run(s@, 0);
    }
    if p == 0 || p >= s.len() || s[p] != '-' {
        return None;
    }
    let q = digit_run_exec(s, p + 1);
    proof {
        lemma_digit_run(s@, p + 1);
    }
    if q == p + 1 || !rest_is(s, q, tail) {
        return None;
    }
    Some((p, q))
}

fn one_number_exec(s: &[char], tail: &[char]) -> (r: Option<usize>)
    ensures
        match r {
            Some(p) => one_number(s@, tail@) == Some(p as int) && p <= s@.len(),
            None => one_number(s@, tail@) is None,
        },
{
    let p = digit_run_exec(s, 0);
    proof {
        lemma_digit_run(s@, 0);
    }
    if p == 0 || !rest_is(s, p, tail) {
        return None;
    }
    Some(p)
}

/// Classify a planning file by its name.
pub fn classify_file(file_name: &str) -> (r: FileType)
    ensures
        r@ == classify_spec(file_name@),
{
    let s = chars_of(file_name);
    if same_chars(&s, &chars_of("STATE.md")) {
        return FileType::StateMd;
    }
    if same_chars(&s, &chars_of("ROADMAP.md")) {
        return FileType::RoadmapMd;
    }
    if same_chars(&s, &chars_of("config.json")) {
        return FileType::ConfigJson;
    }
    if same_chars(&s, &chars_of("agent-history.json")) {
        return FileType::AgentHistory;
    }
    if let Some((p, q)) = two_numbers_exec(&s, &chars_of("-PLAN.md")) {
        return FileType::PlanMd {
            phase_number: string_of(&slice_range(&s, 0, p)),
            plan_number: string_of(&slice_range(&s, p + 1, q)),
        };
    }
    if let Some((p, q)) = two_numbers_exec(&s, &chars_of("-SUMMARY.md")) {
        return FileType::SummaryMd {
            phase_number: string_of(&slice_range(&s, 0, p)),
            plan_number: string_of(&slice_range(&s, p + 1, q)),
        };
    }
    if let Some(p) = one_number_exec(&s, &chars_of("-VERIFICATION.md")) {
        return FileType::VerificationMd { phase_number: string_of(&slice_range(&s, 0, p)) };
    }
    if let Some(p) = one_number_exec(&s, &chars_of("-CONTEXT.md")) {
        return FileType::ContextOrResearch { phase_number: string_of(&slice_range(&s, 0, p)) };
    }
    if let Some(p) = one_number_exec(&s, &chars_of("-RESEARCH.md")) {
        return FileType::ContextOrResearch { phase_number: string_of(&slice_range(&s, 0, p)) };
    }
    FileType::Unknown
}

/// A run of ASCII digits ends where they do.
proof fn lemma_digit_run_ascii(s: Seq<char>, i: int, n: int)
    requires
        0 <= i <= n <= s.len(),
        forall|k: int| 0 <= k < n ==> is_ascii_digit(#[trigger] s[k]),
        n < s.len() ==> s[n] == '-',
    ensures
        digit_run(s, i) == n,
    decreases n - i,
{
    if i < n {
        assert(is_ascii_digit(s[i]));
        assert(crate::classes::digit_class(s[i]));
        lemma_digit_run_ascii(s, i + 1, n);
    } else if n < s.len() {
        assert(!crate::classes::digit_class(s[n]));
    }
}

proof fn lemma_two_numbers(a: Seq<char>, b: Seq<char>, tail: Seq<char>)
    requires
        a.len() > 0,
        b.len() > 0,
        all_ascii_digits(a),
        all_ascii_digits(b),
        tail.len() > 0,
        tail[0] == '-',
    ensures
        two_numbers(a + seq!['-'] + b + tail, tail) == Some(
            (a.len() as int, a.len() as int + 1 + b.len()),
        ),
        (a + seq!['-'] + b + tail).take(a.len() as int) == a,
        (a + seq!['-'] + b + tail).subrange(a.len() as int + 1, a.len() as int + 1 + b.len()) == b,
{
    let s = a + seq!['-'] + b + tail;
    let p = a.len() as int;
    let q = p + 1 + b.len();
    assert forall|k: int| 0 <= k < p implies is_ascii_digit(#[trigger] s[k]) by {
        assert(s[k] == a[k]);
    }
    lemma_digit_run_ascii(s, 0, p);
    let s2 = s.skip(p + 1);
    assert(s2 =~= b + tail);
    assert forall|k: int| 0 <= k < b.len() implies is_ascii_digit(#[trigger] s2[k]) by {
        assert(s2[k] == b[k]);
    }
    assert(s2[b.len() as int] == '-');
    lemma_digit_run_ascii(s2, 0, b.len() as int);
    lemma_digit_run_offset(s, p + 1, 0, b.len() as int);
    assert(s.skip(q) =~= tail);
    assert(s.take(p) =~= a);
    assert(s.subrange(p + 1, q) =~= b);
}

/// The digit run of `s` from `off + i` is that of `s.skip(off)` from `i`,
/// shifted.
proof fn lemma_digit_run_offset(s: Seq<char>, off: int, i: int, n: int)
    requires
        0 <= off <= s.len(),
        0 <= i,
        digit_run(s.skip(off), i) == n,
    ensures
        digit_run(s, off + i) == off + n,
    decreases s.len() - off - i,
{
    let t = s.skip(off);
    if i < t.len() {
        assert(t[i] == s[off + i]);
        if crate::classes::digit_class(t[i]) {
            lemma_digit_run_offset(s, off, i + 1, n);
        }
    }
}

proof fn lemma_one_number(a: Seq<char>, tail: Seq<char>)
    requires
        a.len() > 0,
        all_ascii_digits(a),
        tail.len() > 0,
        tail[0] == '-',
    ensures
        one_number(a + tail, tail) == Some(a.len() as int),
        (a + tail).take(a.len() as int) == a,
{
    let s = a + tail;
    let p = a.len() as int;
    assert forall|k: int| 0 <= k < p implies is_ascii_digit(#[trigger] s[k]) by {
        assert(s[k] == a[k]);
    }
    lemma_digit_run_ascii(s, 0, p);
    assert(s.skip(p) =~= tail);
    assert(s.take(p) =~= a);
}

proof fn lemma_not_fixed_name(s: Seq<char>)
    requires
        s.len() > 0,
        is_ascii_digit(s[0]),
    ensures
        s != "STATE.md"@,
        s != "ROADMAP.md"@,
        s != "config.json"@,
        s != "agent-history.json"@,
{
    reveal_strlit("STATE.md");
    reveal_strlit("ROADMAP.md");
    reveal_strlit("config.json");
    reveal_strlit("agent-history.json");
}

/// A plan file named by the convention `{phase}-{plan}-PLAN.md` is
/// classified as a plan of that phase, with those numbers.
pub proof fn law_classify_plan_name(phase: Seq<char>, plan: Seq<char>)
    requires
        phase.len() > 0,
        plan.len() > 0,
        all_ascii_digits(phase),
        all_ascii_digits(plan),
    ensures
        classify_spec(phase + seq!['-'] + plan + "-PLAN.md"@) == FileTypeView::PlanMd(phase, plan),
{
    reveal_strlit("-PLAN.md");
    lemma_two_numbers(phase, plan, "-PLAN.md"@);
    lemma_not_fixed_name(phase + seq!['-'] + plan + "-PLAN.md"@);
}

/// A summary named `{phase}-{plan}-SUMMARY.md` is classified as the summary
/// of that plan.
pub proof fn law_classify_summary_name(phase: Seq<char>, plan: Seq<char>)
    requires
        phase.len() > 0,
        plan.len() > 0,
        all_ascii_digits(phase),
        all_ascii_digits(plan),
    ensures
        classify_spec(phase + seq!['-'] + plan + "-SUMMARY.md"@) == FileTypeView::SummaryMd(
            phase,
            plan,
        ),
{
    reveal_strlit("-SUMMARY.md");
    reveal_strlit("-PLAN.md");
    lemma_two_numbers(phase, plan, "-SUMMARY.md"@);
    lemma_not_fixed_name(phase + seq!['-'] + plan + "-SUMMARY.md"@);
}

/// A verification named `{phase}-VERIFICATION.md` is classified as the
/// verification of that phase.
pub proof fn law_classify_verification_name(phase: Seq<char>)
    requires
        phase.len() > 0,
        all_ascii_digits(phase),
    ensures
        classify_spec(phase + "-VERIFICATION.md"@) == FileTypeView::VerificationMd(phase),
{
    reveal_strlit("-VERIFICATION.md");
    reveal_strlit("-PLAN.md");
    reveal_strlit("-SUMMARY.md");
    let s = phase + "-VERIFICATION.md"@;
    lemma_one_number(phase, "-VERIFICATION.md"@);
    lemma_not_fixed_name(s);
    let p = digit_run(s, 0);
    assert(p == phase.len());
    assert(s[p] == '-');
    assert(!crate::classes::digit_class(s[p + 1]));
    assert(digit_run(s, p + 1) == p + 1);
}

// ---------------------------------------------------------------------------
// Phase numbers
// ---------------------------------------------------------------------------
/// At least two digits: a single digit gets a leading `0`.
pub open spec fn pad2(d: Seq<char>) -> Seq<char> {
    if d.len() < 2 {
        seq!['0'] + d
    } else {
        d
    }
}

/// Normalized phase number: a number with a `.` is kept as it is; one that
/// `u32::from_str` reads is written with at least two digits; anything else
/// is kept.
pub open spec fn normalize_spec(s: Seq<char>) -> Seq<char> {
    if char_pos(s, '.', 0) < s.len() {
        s
    } else {
        match parse_unsigned_spec(s, 0xFFFF_FFFF) {
            Some(n) => pad2(decimal(n)),
            None => s,
        }
    }
}

/// Normalize a phase number to zero-padded format for consistency.
/// "1" -> "01", "2" -> "02", "2.1" -> "2.1" (decimals unchanged), "01" -> "01"
pub fn normalize_phase_number(num: &str) -> (r: String)
    ensures
        r@ == normalize_spec(num@),
{
    let s = chars_of(num);
    let dot = find_char(&s, '.', 0);
    if dot < s.len() {
        return string_of(&s);
    }
    match parse_unsigned(&s, 0xFFFF_FFFF) {
        Some(n) => {
            let d = decimal_chars(n);
            if d.len() < 2 {
                let mut padded: Vec<char> = Vec::new();
                padded.push('0');
                let mut d2 = d;
                let ghost dd = d2@;
                padded.append(&mut d2);
                proof {
                    assert(padded@ =~= seq!['0'] + dd);
                }
                string_of(&padded)
            } else {
                string_of(&d)
            }
        },
        None => string_of(&s),
    }
}

proof fn lemma_digit_char(d: nat)
    requires
        d < 10,
    ensures
        is_ascii_digit(digit_char(d)),
        (digit_char(d) as u32) - ('0' as u32) == d,
        digit_char(d) != '+',
        digit_char(d) != '.',
{
}

pub proof fn lemma_decimal(n: nat)
    ensures
        decimal(n).len() >= 1,
        all_ascii_digits(decimal(n)),
        digits_value(decimal(n)) == n,
        decimal(n)[0] != '+',
    decreases n,
{
    lemma_digit_char(n % 10);
    let d = decimal(n);
    assert(digits_value(d) == digits_value(d.drop_last()) * 10 + ((d.last() as u32) - ('0' as u32)) as nat);
    if n < 10 {
        assert(d.drop_last() =~= Seq::<char>::empty());
    } else {
        lemma_decimal(n / 10);
        assert(d.drop_last() =~= decimal(n / 10));
        assert(d.last() == digit_char(n % 10));
        assert(n == (n / 10) * 10 + n % 10);
        assert forall|i: int| 0 <= i < d.len() implies is_ascii_digit(#[trigger] d[i]) by {
            if i < d.len() - 1 {
                assert(d[i] == decimal(n / 10)[i]);
            }
        }
    }
}

pub proof fn lemma_digits_value_zero_prefix(s: Seq<char>)
    ensures
        digits_value(seq!['0'] + s) == digits_value(s),
    decreases s.len(),
{
    if s.len() > 0 {
        assert((seq!['0'] + s).drop_last() =~= seq!['0'] + s.drop_last());
        assert((seq!['0'] + s).last() == s.last());
        lemma_digits_value_zero_prefix(s.drop_last());
    } else {
        assert((seq!['0'] + s).drop_last() =~= Seq::<char>::empty());
        assert((seq!['0'] + s) =~= seq!['0']);
        assert(digits_value(seq!['0']) == digits_value(Seq::<char>::empty()) * 10 + (('0' as u32) - ('0' as u32)) as nat);
    }
}

/// The written number has no `.`, is read back as the same number, and so
/// is written the same way again.
proof fn lemma_pad2_reads_back(n: nat)
    requires
        n <= 0xFFFF_FFFF,
    ensures
        char_pos(pad2(decimal(n)), '.', 0) >= pad2(decimal(n)).len(),
        parse_unsigned_spec(pad2(decimal(n)), 0xFFFF_FFFF) == Some(n),
{
    lemma_decimal(n);
    let d = decimal(n);
    let p = pad2(d);
    if d.len() < 2 {
        lemma_digits_value_zero_prefix(d);
        assert forall|i: int| 0 <= i < p.len() implies is_ascii_digit(#[trigger] p[i]) by {
            if i > 0 {
                assert(p[i] == d[i - 1]);
            }
        }
    }
    assert(all_ascii_digits(p));
    lemma_char_pos(p, '.', 0);
    if char_pos(p, '.', 0) < p.len() {
        assert(is_ascii_digit(p[char_pos(p, '.', 0)]));
    }
    assert(p[0] != '+');
    assert(p.len() > 0);
}

/// Normalizing a phase number a second time changes nothing.
pub proof fn law_normalize_idempotent(s: Seq<char>)
    ensures
        normalize_spec(normalize_spec(s)) == normalize_spec(s),
{
    if char_pos(s, '.', 0) >= s.len() {
        if let Some(n) = parse_unsigned_spec(s, 0xFFFF_FFFF) {
            lemma_pad2_reads_back(n);
        }
    }
}

/// A normalized phase number that was read as a number has at least two
/// chars.
pub proof fn law_normalize_two_digits(s: Seq<char>)
    requires
        char_pos(s, '.', 0) >= s.len(),
        parse_unsigned_spec(s, 0xFFFF_FFFF) is Some,
    ensures
        normalize_spec(s).len() >= 2,
        all_ascii_digits(normalize_spec(s)),
{
    let n = parse_unsigned_spec(s, 0xFFFF_FFFF)->Some_0;
    lemma_decimal(n);
    let d = decimal(n);
    let p = pad2(d);
    if d.len() < 2 {
        assert forall|i: int| 0 <= i < p.len() implies is_ascii_digit(#[trigger] p[i]) by {
            if i > 0 {
                assert(p[i] == d[i - 1]);
            }
        }
    }
}

/// Phase number from a phase directory name: the text before the first `-`
/// (the whole name when there is none).
pub open spec fn dir_phase_number_spec(s: Seq<char>) -> Seq<char> {
    s.take(char_pos(s, '-', 0))
}

/// Extract the phase number from a directory name (e.g., "01-backend-foundation" -> "01").
pub fn dir_phase_number(dir_name: &str) -> (r: String)
    ensures
        r@ == dir_phase_number_spec(dir_name@),
{
    let s = chars_of(dir_name);
    let k = find_char(&s, '-', 0);
    proof {
        lemma_char_pos(s@, '-', 0);
    }
    string_of(&slice_range(&s, 0, k))
}

// ---------------------------------------------------------------------------
// Phase directories
// ---------------------------------------------------------------------------
/// Walking up from the prefix of `k` components: the first prefix whose
/// parent is named `phases`.
pub open spec fn phase_dir_from(c: Seq<Seq<char>>, k: int) -> Option<int>
    decreases k,
{
    if k < 2 {
        None
    } else if c[k - 2] == "phases"@ {
        Some(k)
    } else {
        phase_dir_from(c, k - 1)
    }
}

/// The phase directory of a file whose path has the components `c`: the
/// number of leading components that make it up.
pub open spec fn phase_dir_spec(c: Seq<Seq<char>>) -> Option<int> {
    if c.len() == 0 {
        None
    } else {
        phase_dir_from(c, c.len() - 1)
    }
}

/// Walk up from a file path to find the phase directory: the deepest
/// ancestor directory whose parent is named `phases`. The path is given by
/// its components; the result is how many leading components the directory
/// has.
pub fn find_phase_dir(components: &[String]) -> (r: Option<usize>)
    ensures
        match r {
            Some(k) => phase_dir_spec(strings_view(components@)) == Some(k as int),
            None => phase_dir_spec(strings_view(components@)) is None,
        },
{
    let ghost c = strings_view(components@);
    if components.len() == 0 {
        return None;
    }
    let phases = chars_of("phases");
    let mut k = components.len() - 1;
    while k >= 2
        invariant
            k < components@.len(),
            c == strings_view(components@),
            phases@ == "phases"@,
            phase_dir_from(c, k as int) == phase_dir_spec(c),
        decreases k,
    {
        let name = chars_of(components[k - 2].as_str());
        assert(c[k - 2] == components@[k - 2]@);
        if same_chars(&name, &phases) {
            return Some(k);
        }
        k = k - 1;
    }
    None
}

// ---------------------------------------------------------------------------
// Rows written for parsed files
// ---------------------------------------------------------------------------
/// The number of names that contain `-PLAN.md`.
pub open spec fn plan_file_count(files: Seq<Seq<char>>) -> nat
    decreases files.len(),
{
    if files.len() == 0 {
        0
    } else {
        plan_file_count(files.drop_last()) + if contains(files.last(), "-PLAN.md"@) {
            1nat
        } else {
            0nat
        }
    }
}

/// Count the plan files among a phase directory's file names.
pub fn count_plan_files(files: &[String]) -> (r: usize)
    ensures
        r == plan_file_count(strings_view(files@)),
{
    let pat = chars_of("-PLAN.md");
    let mut count: usize = 0;
    let mut i: usize = 0;
    while i < files.len()
        invariant
            i <= files@.len(),
            count == plan_file_count(strings_view(files@.take(i as int))),
            count <= i,
            pat@ == "-PLAN.md"@,
        decreases files@.len() - i,
    {
        proof {
            assert(strings_view(files@.take(i + 1)).drop_last() =~= strings_view(
                files@.take(i as int),
            ));
        }
        let name = chars_of(files[i].as_str());
        assert(strings_view(files@.take(i + 1)).last() == files@[i as int]@);
        if find_pattern(&name, &pat, 0).is_some() {
            count = count + 1;
        }
        i = i + 1;
    }
    proof {
        assert(files@.take(files@.len() as int) =~= files@);
    }
    count
}

/// A list joined with `, `, or nothing when the list is empty.
pub open spec fn joined_or_none(items: Seq<Seq<char>>) -> Option<Seq<char>> {
    if items.len() == 0 {
        None
    } else {
        Some(join(items, ", "@))
    }
}

fn joined_or_none_exec(items: &Vec<String>) -> (r: Option<String>)
    ensures
        crate::json::opt_string_view(r) == joined_or_none(strings_view(items@)),
{
    if items.len() == 0 {
        None
    } else {
        Some(join_strings(items, ", "))
    }
}

/// A list joined with `, `, or nothing when the joined text is empty.
pub open spec fn nonempty_join(items: Seq<Seq<char>>) -> Option<Seq<char>> {
    if join(items, ", "@).len() == 0 {
        None
    } else {
        Some(join(items, ", "@))
    }
}

/// The number of completed plans in a checklist.
pub open spec fn completed_count(plans: Seq<PlanListItem>) -> nat
    decreases plans.len(),
{
    if plans.len() == 0 {
        0
    } else {
        completed_count(plans.drop_last()) + if plans.last().completed {
            1nat
        } else {
            0nat
        }
    }
}

/// Every completed checklist item counts, wherever it stands: the count of
/// completed plans is the number of items whose completed flag is set.
pub proof fn law_completed_count_counts_every_item(plans: Seq<PlanListItem>)
    ensures
        completed_count(plans) == plans.filter(|p: PlanListItem| p.completed).len(),
    decreases plans.len(),
{
    reveal(Seq::filter);
    if plans.len() > 0 {
        law_completed_count_counts_every_item(plans.drop_last());
    }
}

/// The count of completed plans does not depend on the order of the
/// checklist: moving the last item to the front keeps it.
pub proof fn law_completed_count_order_free(plans: Seq<PlanListItem>)
    requires
        plans.len() > 0,
    ensures
        completed_count(seq![plans.last()] + plans.drop_last()) == completed_count(plans),
    decreases plans.len(),
{
    let q = seq![plans.last()] + plans.drop_last();
    law_completed_count_counts_every_item(plans);
    law_completed_count_counts_every_item(q);
    let f = |p: PlanListItem| p.completed;
    broadcast use vstd::seq_lib::group_filter_ensures;
    assert(q.filter(f) =~= seq![plans.last()].filter(f) + plans.drop_last().filter(f)) by {
        Seq::filter_distributes_over_add(seq![plans.last()], plans.drop_last(), f);
    }
    assert(plans =~= plans.drop_last() + seq![plans.last()]);
    Seq::filter_distributes_over_add(plans.drop_last(), seq![plans.last()], f);
    assert(seq![plans.last()].drop_last() =~= Seq::<PlanListItem>::empty());
}

/// The phase row written for a phase of the roadmap.
pub struct PhaseRow {
    pub phase_number: String,
    pub phase_name: String,
    pub goal: Option<String>,
    pub depends_on: Option<String>,
    pub requirements: Option<String>,
    pub plan_count: i64,
    pub completed_plan_count: i64,
}

/// Build the phase row for a roadmap phase: the number normalized, the lists
/// joined, the stated plan count (0 when none) and the completed checklist
/// items.
pub fn phase_row(phase: &PhaseEntry) -> (r: PhaseRow)
    ensures
        r.phase_number@ == normalize_spec(phase.number@),
        r.phase_name@ == phase.name@,
        crate::json::opt_string_view(r.goal) == crate::json::opt_string_view(phase.goal),
        crate::json::opt_string_view(r.depends_on) == joined_or_none(
            strings_view(phase.depends_on@),
        ),
        crate::json::opt_string_view(r.requirements) == joined_or_none(
            strings_view(phase.requirements@),
        ),
        r.plan_count == match phase.plan_count {
            Some(n) => n,
            None => 0,
        },
        r.completed_plan_count == completed_count(phase.plans@) as i64,
{
    let mut done: usize = 0;
    let mut i: usize = 0;
    while i < phase.plans.len()
        invariant
            i <= phase.plans@.len(),
            done == completed_count(phase.plans@.take(i as int)),
            done <= i,
        decreases phase.plans@.len() - i,
    {
        proof {
            assert(phase.plans@.take(i + 1).drop_last() =~= phase.plans@.take(i as int));
        }
        if phase.plans[i].completed {
            done = done + 1;
        }
        i = i + 1;
    }
    proof {
        assert(phase.plans@.take(phase.plans@.len() as int) =~= phase.plans@);
    }
    PhaseRow {
        phase_number: normalize_phase_number(phase.number.as_str()),
        phase_name: phase.name.clone(),
        goal: match &phase.goal {
            Some(g) => Some(g.clone()),
            None => None,
        },
        depends_on: joined_or_none_exec(&phase.depends_on),
        requirements: joined_or_none_exec(&phase.requirements),
        plan_count: match phase.plan_count {
            Some(n) => n,
            None => 0,
        },
        completed_plan_count: done as i64,
    }
}

/// The plan row written for a PLAN.md.
pub struct PlanRow {
    pub wave: Option<i64>,
    pub depends_on: Option<String>,
    pub plan_type: Option<String>,
    pub requirements: Option<String>,
    pub files_modified: Option<String>,
}

/// Build the plan row for a parsed PLAN.md: the lists joined with `, `, or
/// nothing when empty.
pub fn plan_row(data: &PlanMdData) -> (r: PlanRow)
    ensures
        r.wave == data.wave,
        crate::json::opt_string_view(r.depends_on) == joined_or_none(
            strings_view(data.depends_on@),
        ),
        crate::json::opt_string_view(r.plan_type) == crate::json::opt_string_view(data.plan_type),
        crate::json::opt_string_view(r.requirements) == joined_or_none(
            strings_view(data.requirements@),
        ),
        crate::json::opt_string_view(r.files_modified) == joined_or_none(
            strings_view(data.files_modified@),
        ),
{
    PlanRow {
        wave: data.wave,
        depends_on: joined_or_none_exec(&data.depends_on),
        plan_type: match &data.plan_type {
            Some(t) => Some(t.clone()),
            None => None,
        },
        requirements: joined_or_none_exec(&data.requirements),
        files_modified: joined_or_none_exec(&data.files_modified),
    }
}

/// The key files and completed requirements written to the execution run of
/// a SUMMARY.md: each list joined with `, `, nothing when the text is empty.
pub fn run_lists(key_files: &Vec<String>, requirements: &Vec<String>) -> (r: (
    Option<String>,
    Option<String>,
))
    ensures
        crate::json::opt_string_view(r.0) == nonempty_join(strings_view(key_files@)),
        crate::json::opt_string_view(r.1) == nonempty_join(strings_view(requirements@)),
{
    let k = join_strings(key_files, ", ");
    let q = join_strings(requirements, ", ");
    let kc = chars_of(k.as_str());
    let qc = chars_of(q.as_str());
    (
        if kc.len() == 0 {
            None
        } else {
            Some(k)
        },
        if qc.len() == 0 {
            None
        } else {
            Some(q)
        },
    )
}

} // verus!
