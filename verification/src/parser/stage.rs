//! Phase stage derived from the files present in a phase directory.
use vstd::prelude::*;

use crate::db::models::PhaseStage;
use crate::text::{chars_of, find_from, find_pattern, has_at, occurs_at};

verus! {

pub open spec fn ends_with(s: Seq<char>, p: Seq<char>) -> bool {
    p.len() <= s.len() && occurs_at(s, p, s.len() - p.len())
}

pub open spec fn contains(s: Seq<char>, p: Seq<char>) -> bool {
    find_from(s, p, 0) is Some
}

/// Some file satisfies `f`.
pub open spec fn any_file(files: Seq<Seq<char>>, f: spec_fn(Seq<char>) -> bool) -> bool {
    exists|i: int| 0 <= i < files.len() && f(#[trigger] files[i])
}

/// Number of files whose name contains `-SUMMARY.md`.
pub open spec fn summary_count(files: Seq<Seq<char>>) -> nat
    decreases files.len(),
{
    if files.len() == 0 {
        0
    } else {
        summary_count(files.drop_last()) + if contains(files.last(), "-SUMMARY.md"@) {
            1nat
        } else {
            0nat
        }
    }
}

/// The stage of a phase from the names of the files in its directory and
/// the number of plans it should have. Later stages win:
/// `VERIFICATION.md` gives Verified; as many summaries as plans (with at
/// least one plan) give Executed; some summaries give Executing; a plan gives
/// PlannedReady; then RESEARCH.md, CONTEXT.md; otherwise Planned.
pub open spec fn stage_spec(files: Seq<Seq<char>>, plan_count: nat) -> PhaseStage {
    if files.len() == 0 {
        PhaseStage::Planned
    } else if any_file(files, |f: Seq<char>| ends_with(f, "VERIFICATION.md"@)) {
        PhaseStage::Verified
    } else if plan_count > 0 && summary_count(files) >= plan_count {
        PhaseStage::Executed
    } else if summary_count(files) > 0 {
        PhaseStage::Executing
    } else if any_file(files, |f: Seq<char>| contains(f, "-PLAN.md"@)) {
        PhaseStage::PlannedReady
    } else if any_file(files, |f: Seq<char>| ends_with(f, "RESEARCH.md"@)) {
        PhaseStage::Researched
    } else if any_file(files, |f: Seq<char>| ends_with(f, "CONTEXT.md"@)) {
        PhaseStage::Discussed
    } else {
        PhaseStage::Planned
    }
}

/// The position of a stage in pipeline order.
pub open spec fn stage_rank(s: PhaseStage) -> int {
    match s {
        PhaseStage::Planned => 0,
        PhaseStage::Discussed => 1,
        PhaseStage::Researched => 2,
        PhaseStage::PlannedReady => 3,
        PhaseStage::Executing => 4,
        PhaseStage::Executed => 5,
        PhaseStage::Verified => 6,
    }
}

fn ends_with_exec(s: &[char], p: &[char]) -> (r: bool)
    ensures
        r == ends_with(s@, p@),
{
    p.len() <= s.len() && has_at(s, s.len() - p.len(), p)
}

fn contains_exec(s: &[char], p: &[char]) -> (r: bool)
    ensures
        r == contains(s@, p@),
{
    find_pattern(s, p, 0).is_some()
}

pub open spec fn file_names(files: Seq<String>) -> Seq<Seq<char>> {
    files.map_values(|f: String| f@)
}

/// Derive the current stage of a phase based on which files exist in its
/// directory. This is a pure function: the caller passes the list of
/// filenames found in the phase directory and the expected plan count.
pub fn derive_stage(files: &[String], plan_count: usize) -> (r: PhaseStage)
    ensures
        r == stage_spec(file_names(files@), plan_count as nat),
{
    let ghost names = file_names(files@);
    if files.len() == 0 {
        return PhaseStage::Planned;
    }
    let context = chars_of("CONTEXT.md");
    let research = chars_of("RESEARCH.md");
    let plan = chars_of("-PLAN.md");
    let verification = chars_of("VERIFICATION.md");
    let summary = chars_of("-SUMMARY.md");
    let mut has_context = false;
    let mut has_research = false;
    let mut has_plan = false;
    let mut has_verification = false;
    let mut count: usize = 0;
    let mut i: usize = 0;
    while i < files.len()
        invariant
            i <= files@.len(),
            names == file_names(files@),
            context@ == "CONTEXT.md"@,
            research@ == "RESEARCH.md"@,
            plan@ == "-PLAN.md"@,
            verification@ == "VERIFICATION.md"@,
            summary@ == "-SUMMARY.md"@,
            has_context == any_file(names.take(i as int), |f: Seq<char>| ends_with(f, "CONTEXT.md"@)),
            has_research == any_file(
                names.take(i as int),
                |f: Seq<char>| ends_with(f, "RESEARCH.md"@),
            ),
            has_plan == any_file(names.take(i as int), |f: Seq<char>| contains(f, "-PLAN.md"@)),
            has_verification == any_file(
                names.take(i as int),
                |f: Seq<char>| ends_with(f, "VERIFICATION.md"@),
            ),
            count == summary_count(names.take(i as int)),
            count <= i,
        decreases files@.len() - i,
    {
        let f = chars_of(files[i].as_str());
        let ghost t = names.take(i + 1);
        proof {
            assert(t.drop_last() =~= names.take(i as int));
            assert(t.last() == f@);
            assert(t =~= names.take(i as int).push(f@));
        }
        if ends_with_exec(&f, &context) {
            has_context = true;
        }
        if ends_with_exec(&f, &research) {
            has_research = true;
        }
        if contains_exec(&f, &plan) {
            has_plan = true;
        }
        if ends_with_exec(&f, &verification) {
            has_verification = true;
        }
        if contains_exec(&f, &summary) {
            count = count + 1;
        }
        i = i + 1;
    }
    proof {
        assert(names.take(files@.len() as int) =~= names);
    }
    if has_verification {
        return PhaseStage::Verified;
    }
    if plan_count > 0 && count >= plan_count {
        return PhaseStage::Executed;
    }
    if count > 0 {
        return PhaseStage::Executing;
    }
    if has_plan {
        return PhaseStage::PlannedReady;
    }
    if has_research {
        return PhaseStage::Researched;
    }
    if has_context {
        return PhaseStage::Discussed;
    }
    PhaseStage::Planned
}

/// A file appearing in a phase directory never moves the phase back to an
/// earlier stage.
pub proof fn law_stage_never_regresses(files: Seq<Seq<char>>, f: Seq<char>, plan_count: nat)
    ensures
        stage_rank(stage_spec(files.push(f), plan_count)) >= stage_rank(
            stage_spec(files, plan_count),
        ),
{
    let g = files.push(f);
    assert(g.drop_last() =~= files);
    assert(summary_count(g) >= summary_count(files));
    assert forall|p: spec_fn(Seq<char>) -> bool| any_file(files, p) implies any_file(g, p) by {
        let i = choose|i: int| 0 <= i < files.len() && p(#[trigger] files[i]);
        assert(g[i] == files[i]);
    }
    let v = |x: Seq<char>| ends_with(x, "VERIFICATION.md"@);
    let pl = |x: Seq<char>| contains(x, "-PLAN.md"@);
    let re = |x: Seq<char>| ends_with(x, "RESEARCH.md"@);
    let co = |x: Seq<char>| ends_with(x, "CONTEXT.md"@);
    assert(any_file(files, v) ==> any_file(g, v));
    assert(any_file(files, pl) ==> any_file(g, pl));
    assert(any_file(files, re) ==> any_file(g, re));
    assert(any_file(files, co) ==> any_file(g, co));
}


/// Removing the file at `j` removes its summary, if it is one, from the
/// count.
proof fn lemma_summary_count_remove(s: Seq<Seq<char>>, j: int)
    requires
        0 <= j < s.len(),
    ensures
        summary_count(s) == summary_count(s.remove(j)) + if contains(s[j], "-SUMMARY.md"@) {
            1nat
        } else {
            0nat
        },
    decreases s.len(),
{
    if j == s.len() - 1 {
        assert(s.remove(j) =~= s.drop_last());
    } else {
        lemma_summary_count_remove(s.drop_last(), j);
        assert(s.remove(j).drop_last() =~= s.drop_last().remove(j));
        assert(s.remove(j).last() == s.last());
    }
}

/// The summary count grows with the files (as a multiset).
proof fn lemma_summary_count_mono(s: Seq<Seq<char>>, s2: Seq<Seq<char>>)
    requires
        s.to_multiset().subset_of(s2.to_multiset()),
    ensures
        summary_count(s) <= summary_count(s2),
    decreases s.len(),
{
    broadcast use vstd::seq_lib::group_to_multiset_ensures;

    if s.len() > 0 {
        let x = s.last();
        let d = s.drop_last();
        assert(s =~= d.push(x));
        assert(s.to_multiset().count(x) > 0);
        assert(s2.to_multiset().count(x) > 0);
        assert(s2.contains(x));
        let j = choose|j: int| 0 <= j < s2.len() && s2[j] == x;
        lemma_summary_count_remove(s2, j);
        let r = s2.remove(j);
        assert(r.to_multiset() =~= s2.to_multiset().remove(x));
        assert(d.to_multiset().subset_of(r.to_multiset())) by {
            assert forall|y: Seq<char>| d.to_multiset().count(y) <= r.to_multiset().count(y) by {
                assert(s.to_multiset().count(y) <= s2.to_multiset().count(y));
            }
        }
        lemma_summary_count_mono(d, r);
    }
}

/// Every file of `s` is a file of `s2`, so whatever some file of `s`
/// satisfies, some file of `s2` does.
proof fn lemma_any_file_mono(s: Seq<Seq<char>>, s2: Seq<Seq<char>>, p: spec_fn(Seq<char>) -> bool)
    requires
        s.to_multiset().subset_of(s2.to_multiset()),
        any_file(s, p),
    ensures
        any_file(s2, p),
{
    broadcast use vstd::seq_lib::group_to_multiset_ensures;

    let i = choose|i: int| 0 <= i < s.len() && p(#[trigger] s[i]);
    let x = s[i];
    assert(s.contains(x));
    assert(s.to_multiset().count(x) > 0);
    assert(s2.to_multiset().count(x) > 0);
    assert(s2.contains(x));
    let j = choose|j: int| 0 <= j < s2.len() && s2[j] == x;
    assert(p(s2[j]));
}

/// Files appearing in a phase directory never move the phase back to an
/// earlier stage: when every file of `files` (counted with repetition) is
/// among `files2`, the stage of `files2` is at least that of `files`.
pub proof fn law_stage_monotone(files: Seq<Seq<char>>, files2: Seq<Seq<char>>, plan_count: nat)
    requires
        files.to_multiset().subset_of(files2.to_multiset()),
    ensures
        stage_rank(stage_spec(files2, plan_count)) >= stage_rank(stage_spec(files, plan_count)),
{
    broadcast use vstd::seq_lib::group_to_multiset_ensures;

    if files.len() > 0 {
        assert(files.to_multiset().count(files[0]) > 0);
        assert(files2.to_multiset().count(files[0]) > 0);
        assert(files2.len() == files2.to_multiset().len());
    }
    lemma_summary_count_mono(files, files2);
    let v = |x: Seq<char>| ends_with(x, "VERIFICATION.md"@);
    let pl = |x: Seq<char>| contains(x, "-PLAN.md"@);
    let re = |x: Seq<char>| ends_with(x, "RESEARCH.md"@);
    let co = |x: Seq<char>| ends_with(x, "CONTEXT.md"@);
    if any_file(files, v) {
        lemma_any_file_mono(files, files2, v);
    }
    if any_file(files, pl) {
        lemma_any_file_mono(files, files2, pl);
    }
    if any_file(files, re) {
        lemma_any_file_mono(files, files2, re);
    }
    if any_file(files, co) {
        lemma_any_file_mono(files, files2, co);
    }
}

/// No file name holds `-SUMMARY.md`: no summaries are counted.
proof fn lemma_no_summary(files: Seq<Seq<char>>)
    requires
        forall|i: int| 0 <= i < files.len() ==> !contains(#[trigger] files[i], "-SUMMARY.md"@),
    ensures
        summary_count(files) == 0,
    decreases files.len(),
{
    if files.len() > 0 {
        assert forall|i: int| 0 <= i < files.drop_last().len() implies !contains(
            #[trigger] files.drop_last()[i],
            "-SUMMARY.md"@,
        ) by {
            assert(files.drop_last()[i] == files[i]);
        }
        lemma_no_summary(files.drop_last());
        assert(!contains(files[files.len() - 1], "-SUMMARY.md"@));
    }
}

/// A `VERIFICATION.md` file makes the phase Verified, whatever else the
/// directory holds.
pub proof fn law_verification_gives_verified(files: Seq<Seq<char>>, plan_count: nat, k: int)
    requires
        0 <= k < files.len(),
        ends_with(files[k], "VERIFICATION.md"@),
    ensures
        stage_spec(files, plan_count) == PhaseStage::Verified,
{
    let v = |f: Seq<char>| ends_with(f, "VERIFICATION.md"@);
    assert(v(files[k]));
}

/// With no verification and no summary, a `-PLAN.md` file makes the phase
/// PlannedReady, whatever research or context files are there.
pub proof fn law_plan_gives_planned_ready(files: Seq<Seq<char>>, plan_count: nat, k: int)
    requires
        forall|i: int|
            0 <= i < files.len() ==> !ends_with(#[trigger] files[i], "VERIFICATION.md"@)
                && !contains(files[i], "-SUMMARY.md"@),
        0 <= k < files.len(),
        contains(files[k], "-PLAN.md"@),
    ensures
        stage_spec(files, plan_count) == PhaseStage::PlannedReady,
{
    lemma_no_summary(files);
    let pl = |f: Seq<char>| contains(f, "-PLAN.md"@);
    assert(pl(files[k]));
}

/// With no verification, summary or plan file, a `RESEARCH.md` file makes
/// the phase Researched, whether or not a `CONTEXT.md` is there.
pub proof fn law_research_gives_researched(files: Seq<Seq<char>>, plan_count: nat, k: int)
    requires
        forall|i: int|
            0 <= i < files.len() ==> !ends_with(#[trigger] files[i], "VERIFICATION.md"@)
                && !contains(files[i], "-SUMMARY.md"@) && !contains(files[i], "-PLAN.md"@),
        0 <= k < files.len(),
        ends_with(files[k], "RESEARCH.md"@),
    ensures
        stage_spec(files, plan_count) == PhaseStage::Researched,
{
    lemma_no_summary(files);
    let re = |f: Seq<char>| ends_with(f, "RESEARCH.md"@);
    assert(re(files[k]));
}

/// With no verification, summary, plan or research file, a `CONTEXT.md`
/// file makes the phase Discussed.
pub proof fn law_context_gives_discussed(files: Seq<Seq<char>>, plan_count: nat, k: int)
    requires
        forall|i: int|
            0 <= i < files.len() ==> !ends_with(#[trigger] files[i], "VERIFICATION.md"@)
                && !contains(files[i], "-SUMMARY.md"@) && !contains(files[i], "-PLAN.md"@)
                && !ends_with(files[i], "RESEARCH.md"@),
        0 <= k < files.len(),
        ends_with(files[k], "CONTEXT.md"@),
    ensures
        stage_spec(files, plan_count) == PhaseStage::Discussed,
{
    lemma_no_summary(files);
    let co = |f: Seq<char>| ends_with(f, "CONTEXT.md"@);
    assert(co(files[k]));
}

/// With none of the files the stages look for, the phase is Planned.
pub proof fn law_no_stage_files_gives_planned(files: Seq<Seq<char>>, plan_count: nat)
    requires
        forall|i: int|
            0 <= i < files.len() ==> !ends_with(#[trigger] files[i], "VERIFICATION.md"@)
                && !contains(files[i], "-SUMMARY.md"@) && !contains(files[i], "-PLAN.md"@)
                && !ends_with(files[i], "RESEARCH.md"@) && !ends_with(files[i], "CONTEXT.md"@),
    ensures
        stage_spec(files, plan_count) == PhaseStage::Planned,
{
    lemma_no_summary(files);
}

/// Every summary file counts, wherever it stands: the summary count is the
/// number of file names holding `-SUMMARY.md`.
pub proof fn law_summary_count_counts_every_summary(files: Seq<Seq<char>>)
    ensures
        summary_count(files) == files.filter(|f: Seq<char>| contains(f, "-SUMMARY.md"@)).len(),
    decreases files.len(),
{
    reveal(Seq::filter);
    if files.len() > 0 {
        law_summary_count_counts_every_summary(files.drop_last());
    }
}

/// With no verification file, as many summaries as plans (with at least
/// one plan) make the phase Executed, and fewer but some make it
/// Executing, whatever plan, research or context files are there.
pub proof fn law_summaries_give_execution_stages(files: Seq<Seq<char>>, plan_count: nat)
    requires
        forall|i: int| 0 <= i < files.len() ==> !ends_with(#[trigger] files[i], "VERIFICATION.md"@),
    ensures
        ({
            let n = files.filter(|f: Seq<char>| contains(f, "-SUMMARY.md"@)).len();
            &&& plan_count > 0 && n >= plan_count ==> stage_spec(files, plan_count)
                == PhaseStage::Executed
            &&& !(plan_count > 0 && n >= plan_count) && n > 0 ==> stage_spec(files, plan_count)
                == PhaseStage::Executing
        }),
{
    law_summary_count_counts_every_summary(files);
    let v = |f: Seq<char>| ends_with(f, "VERIFICATION.md"@);
    if files.len() > 0 {
        assert(!any_file(files, v));
    }
}

} // verus!
