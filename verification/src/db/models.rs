//! Status enums and row records.
use vstd::prelude::*;

use crate::text::{chars_of, is_lower_ascii_word, lowercase, to_lowercase};

verus! {

/// A project's registration status.
#[derive(Debug, Clone, Copy, PartialEq, Eq, Structural)]
pub enum ProjectStatus {
    Active,
    Offline,
}

/// The stage a phase has reached, in pipeline order.
#[derive(Debug, Clone, Copy, PartialEq, Eq, Structural)]
pub enum PhaseStage {
    Planned,
    Discussed,
    Researched,
    PlannedReady,
    Executing,
    Executed,
    Verified,
}

/// The execution status of a plan.
#[derive(Debug, Clone, Copy, PartialEq, Eq, Structural)]
pub enum PlanStatus {
    Pending,
    Working,
    Done,
    Failed,
}

/// The outcome of a phase verification.
#[derive(Debug, Clone, Copy, PartialEq, Eq, Structural)]
pub enum VerificationStatus {
    Passed,
    GapsFound,
    HumanNeeded,
}

/// How severe a recorded parse error is.
#[derive(Debug, Clone, Copy, PartialEq, Eq, Structural)]
pub enum ParseErrorSeverity {
    Warning,
    Error,
}

/// Text of `message` followed by `detail`.
fn message_with(message: &str, detail: &str) -> (r: String)
    ensures
        r@ == message@ + detail@,
{
    String::from_str(message).concat(detail)
}

impl ProjectStatus {
    pub open spec fn name(self) -> Seq<char> {
        match self {
            ProjectStatus::Active => "active"@,
            ProjectStatus::Offline => "offline"@,
        }
    }

    /// Each stored name is lowercase and names one value.
    pub proof fn lemma_names(v: ProjectStatus)
        ensures
            is_lower_ascii_word(v.name()),
            forall|w: ProjectStatus| #[trigger] w.name() == v.name() ==> w == v,
    {
        reveal_strlit("active");
        reveal_strlit("offline");
        assert forall|w: ProjectStatus| #[trigger] w.name() == v.name() implies w == v by {
            if w != v {
                assert(w.name().len() != v.name().len() || w.name()[0] != v.name()[0]);
            }
        }
        match v {
            ProjectStatus::Active => {},
            ProjectStatus::Offline => {},
        }
    }

    /// The stored name (the `Display` text).
    pub fn to_string(&self) -> (r: String)
        ensures
            r@ == self.name(),
    {
        match self {
            ProjectStatus::Active => String::from_str("active"),
            ProjectStatus::Offline => String::from_str("offline"),
        }
    }

    /// Reads a status from its name, in any letter case.
    pub fn from_str(s: &str) -> (r: Result<ProjectStatus, String>)
        ensures
            match r {
                Ok(v) => lowercase(s@) == v.name(),
                Err(m) => (forall|v: ProjectStatus| lowercase(s@) != v.name()) && m@
                    == "Unknown project status: "@ + lowercase(s@),
            },
            forall|w: ProjectStatus| #[trigger] w.name() == s@ ==> r == Ok::<ProjectStatus, String>(w),
    {
        let low = to_lowercase(s);
        proof {
            assert forall|w: ProjectStatus| #[trigger] w.name() == s@ implies lowercase(s@) == w.name() && (
            forall|u: ProjectStatus| #[trigger] u.name() == w.name() ==> u == w) by {
                ProjectStatus::lemma_names(w);
            }
            ProjectStatus::lemma_names(ProjectStatus::Active);
            ProjectStatus::lemma_names(ProjectStatus::Offline);
        }
        let l = chars_of(low.as_str());
        if crate::text::same_chars(&l, &chars_of("active")) {
            Ok(ProjectStatus::Active)
        } else if crate::text::same_chars(&l, &chars_of("offline")) {
            Ok(ProjectStatus::Offline)
        } else {
            proof {
                assert forall|v: ProjectStatus| lowercase(s@) != v.name() by {
                    match v {
                        ProjectStatus::Active => {},
                        ProjectStatus::Offline => {},
                    }
                }
            }
            Err(message_with("Unknown project status: ", low.as_str()))
        }
    }
}

impl PhaseStage {
    pub open spec fn name(self) -> Seq<char> {
        match self {
            PhaseStage::Planned => "planned"@,
            PhaseStage::Discussed => "discussed"@,
            PhaseStage::Researched => "researched"@,
            PhaseStage::PlannedReady => "planned_ready"@,
            PhaseStage::Executing => "executing"@,
            PhaseStage::Executed => "executed"@,
            PhaseStage::Verified => "verified"@,
        }
    }

    /// Each stored name is lowercase and names one value.
    pub proof fn lemma_names(v: PhaseStage)
        ensures
            is_lower_ascii_word(v.name()),
            forall|w: PhaseStage| #[trigger] w.name() == v.name() ==> w == v,
    {
        reveal_strlit("planned");
        reveal_strlit("discussed");
        reveal_strlit("researched");
        reveal_strlit("planned_ready");
        reveal_strlit("executing");
        reveal_strlit("executed");
        reveal_strlit("verified");
        assert forall|w: PhaseStage| #[trigger] w.name() == v.name() implies w == v by {
            if w != v {
                assert(w.name().len() != v.name().len() || w.name()[0] != v.name()[0]);
            }
        }
        match v {
            PhaseStage::Planned => {},
            PhaseStage::Discussed => {},
            PhaseStage::Researched => {},
            PhaseStage::PlannedReady => {},
            PhaseStage::Executing => {},
            PhaseStage::Executed => {},
            PhaseStage::Verified => {},
        }
    }

    /// The stored name (the `Display` text).
    pub fn to_string(&self) -> (r: String)
        ensures
            r@ == self.name(),
    {
        match self {
            PhaseStage::Planned => String::from_str("planned"),
            PhaseStage::Discussed => String::from_str("discussed"),
            PhaseStage::Researched => String::from_str("researched"),
            PhaseStage::PlannedReady => String::from_str("planned_ready"),
            PhaseStage::Executing => String::from_str("executing"),
            PhaseStage::Executed => String::from_str("executed"),
            PhaseStage::Verified => String::from_str("verified"),
        }
    }

    /// Reads a phase stage from its name, in any letter case.
    pub fn from_str(s: &str) -> (r: Result<PhaseStage, String>)
        ensures
            match r {
                Ok(v) => lowercase(s@) == v.name(),
                Err(m) => (forall|v: PhaseStage| lowercase(s@) != v.name()) && m@
                    == "Unknown phase stage: "@ + lowercase(s@),
            },
            forall|w: PhaseStage| #[trigger] w.name() == s@ ==> r == Ok::<PhaseStage, String>(w),
    {
        let low = to_lowercase(s);
        proof {
            assert forall|w: PhaseStage| #[trigger] w.name() == s@ implies lowercase(s@) == w.name() && (
            forall|u: PhaseStage| #[trigger] u.name() == w.name() ==> u == w) by {
                PhaseStage::lemma_names(w);
            }
            PhaseStage::lemma_names(PhaseStage::Planned);
            PhaseStage::lemma_names(PhaseStage::Discussed);
            PhaseStage::lemma_names(PhaseStage::Researched);
            PhaseStage::lemma_names(PhaseStage::PlannedReady);
            PhaseStage::lemma_names(PhaseStage::Executing);
            PhaseStage::lemma_names(PhaseStage::Executed);
            PhaseStage::lemma_names(PhaseStage::Verified);
        }
        let l = chars_of(low.as_str());
        if crate::text::same_chars(&l, &chars_of("planned")) {
            Ok(PhaseStage::Planned)
        } else if crate::text::same_chars(&l, &chars_of("discussed")) {
            Ok(PhaseStage::Discussed)
        } else if crate::text::same_chars(&l, &chars_of("researched")) {
            Ok(PhaseStage::Researched)
        } else if crate::text::same_chars(&l, &chars_of("planned_ready")) {
            Ok(PhaseStage::PlannedReady)
        } else if crate::text::same_chars(&l, &chars_of("executing")) {
            Ok(PhaseStage::Executing)
        } else if crate::text::same_chars(&l, &chars_of("executed")) {
            Ok(PhaseStage::Executed)
        } else if crate::text::same_chars(&l, &chars_of("verified")) {
            Ok(PhaseStage::Verified)
        } else {
            proof {
                assert forall|v: PhaseStage| lowercase(s@) != v.name() by {
                    match v {
                        PhaseStage::Planned => {},
                        PhaseStage::Discussed => {},
                        PhaseStage::Researched => {},
                        PhaseStage::PlannedReady => {},
                        PhaseStage::Executing => {},
                        PhaseStage::Executed => {},
                        PhaseStage::Verified => {},
                    }
                }
            }
            Err(message_with("Unknown phase stage: ", low.as_str()))
        }
    }
}

impl PlanStatus {
    pub open spec fn name(self) -> Seq<char> {
        match self {
            PlanStatus::Pending => "pending"@,
            PlanStatus::Working => "working"@,
            PlanStatus::Done => "done"@,
            PlanStatus::Failed => "failed"@,
        }
    }

    /// Each stored name is lowercase and names one value.
    pub proof fn lemma_names(v: PlanStatus)
        ensures
            is_lower_ascii_word(v.name()),
            forall|w: PlanStatus| #[trigger] w.name() == v.name() ==> w == v,
    {
        reveal_strlit("pending");
        reveal_strlit("working");
        reveal_strlit("done");
        reveal_strlit("failed");
        assert forall|w: PlanStatus| #[trigger] w.name() == v.name() implies w == v by {
            if w != v {
                assert(w.name().len() != v.name().len() || w.name()[0] != v.name()[0]);
            }
        }
        match v {
            PlanStatus::Pending => {},
            PlanStatus::Working => {},
            PlanStatus::Done => {},
            PlanStatus::Failed => {},
        }
    }

    /// The stored name (the `Display` text).
    pub fn to_string(&self) -> (r: String)
        ensures
            r@ == self.name(),
    {
        match self {
            PlanStatus::Pending => String::from_str("pending"),
            PlanStatus::Working => String::from_str("working"),
            PlanStatus::Done => String::from_str("done"),
            PlanStatus::Failed => String::from_str("failed"),
        }
    }

    /// Reads a plan status from its name, in any letter case.
    pub fn from_str(s: &str) -> (r: Result<PlanStatus, String>)
        ensures
            match r {
                Ok(v) => lowercase(s@) == v.name(),
                Err(m) => (forall|v: PlanStatus| lowercase(s@) != v.name()) && m@
                    == "Unknown plan status: "@ + lowercase(s@),
            },
            forall|w: PlanStatus| #[trigger] w.name() == s@ ==> r == Ok::<PlanStatus, String>(w),
    {
        let low = to_lowercase(s);
        proof {
            assert forall|w: PlanStatus| #[trigger] w.name() == s@ implies lowercase(s@) == w.name() && (
            forall|u: PlanStatus| #[trigger] u.name() == w.name() ==> u == w) by {
                PlanStatus::lemma_names(w);
            }
            PlanStatus::lemma_names(PlanStatus::Pending);
            PlanStatus::lemma_names(PlanStatus::Working);
            PlanStatus::lemma_names(PlanStatus::Done);
            PlanStatus::lemma_names(PlanStatus::Failed);
        }
        let l = chars_of(low.as_str());
        if crate::text::same_chars(&l, &chars_of("pending")) {
            Ok(PlanStatus::Pending)
        } else if crate::text::same_chars(&l, &chars_of("working")) {
            Ok(PlanStatus::Working)
        } else if crate::text::same_chars(&l, &chars_of("done")) {
            Ok(PlanStatus::Done)
        } else if crate::text::same_chars(&l, &chars_of("failed")) {
            Ok(PlanStatus::Failed)
        } else {
            proof {
                assert forall|v: PlanStatus| lowercase(s@) != v.name() by {
                    match v {
                        PlanStatus::Pending => {},
                        PlanStatus::Working => {},
                        PlanStatus::Done => {},
                        PlanStatus::Failed => {},
                    }
                }
            }
            Err(message_with("Unknown plan status: ", low.as_str()))
        }
    }
}

impl VerificationStatus {
    pub open spec fn name(self) -> Seq<char> {
        match self {
            VerificationStatus::Passed => "passed"@,
            VerificationStatus::GapsFound => "gaps_found"@,
            VerificationStatus::HumanNeeded => "human_needed"@,
        }
    }

    /// Each stored name is lowercase and names one value.
    pub proof fn lemma_names(v: VerificationStatus)
        ensures
            is_lower_ascii_word(v.name()),
            forall|w: VerificationStatus| #[trigger] w.name() == v.name() ==> w == v,
    {
        reveal_strlit("passed");
        reveal_strlit("gaps_found");
        reveal_strlit("human_needed");
        assert forall|w: VerificationStatus| #[trigger] w.name() == v.name() implies w == v by {
            if w != v {
                assert(w.name().len() != v.name().len() || w.name()[0] != v.name()[0]);
            }
        }
        match v {
            VerificationStatus::Passed => {},
            VerificationStatus::GapsFound => {},
            VerificationStatus::HumanNeeded => {},
        }
    }

    /// The stored name (the `Display` text).
    pub fn to_string(&self) -> (r: String)
        ensures
            r@ == self.name(),
    {
        match self {
            VerificationStatus::Passed => String::from_str("passed"),
            VerificationStatus::GapsFound => String::from_str("gaps_found"),
            VerificationStatus::HumanNeeded => String::from_str("human_needed"),
        }
    }

    /// Reads a verification status from its name, in any letter case.
    pub fn from_str(s: &str) -> (r: Result<VerificationStatus, String>)
        ensures
            match r {
                Ok(v) => lowercase(s@) == v.name(),
                Err(m) => (forall|v: VerificationStatus| lowercase(s@) != v.name()) && m@
                    == "Unknown verification status: "@ + lowercase(s@),
            },
            forall|w: VerificationStatus| #[trigger] w.name() == s@ ==> r == Ok::<VerificationStatus, String>(w),
    {
        let low = to_lowercase(s);
        proof {
            assert forall|w: VerificationStatus| #[trigger] w.name() == s@ implies lowercase(s@) == w.name() && (
            forall|u: VerificationStatus| #[trigger] u.name() == w.name() ==> u == w) by {
                VerificationStatus::lemma_names(w);
            }
            VerificationStatus::lemma_names(VerificationStatus::Passed);
            VerificationStatus::lemma_names(VerificationStatus::GapsFound);
            VerificationStatus::lemma_names(VerificationStatus::HumanNeeded);
        }
        let l = chars_of(low.as_str());
        if crate::text::same_chars(&l, &chars_of("passed")) {
            Ok(VerificationStatus::Passed)
        } else if crate::text::same_chars(&l, &chars_of("gaps_found")) {
            Ok(VerificationStatus::GapsFound)
        } else if crate::text::same_chars(&l, &chars_of("human_needed")) {
            Ok(VerificationStatus::HumanNeeded)
        } else {
            proof {
                assert forall|v: VerificationStatus| lowercase(s@) != v.name() by {
                    match v {
                        VerificationStatus::Passed => {},
                        VerificationStatus::GapsFound => {},
                        VerificationStatus::HumanNeeded => {},
                    }
                }
            }
            Err(message_with("Unknown verification status: ", low.as_str()))
        }
    }
}

impl ParseErrorSeverity {
    pub open spec fn name(self) -> Seq<char> {
        match self {
            ParseErrorSeverity::Warning => "warning"@,
            ParseErrorSeverity::Error => "error"@,
        }
    }

    /// Each stored name is lowercase and names one value.
    pub proof fn lemma_names(v: ParseErrorSeverity)
        ensures
            is_lower_ascii_word(v.name()),
            forall|w: ParseErrorSeverity| #[trigger] w.name() == v.name() ==> w == v,
    {
        reveal_strlit("warning");
        reveal_strlit("error");
        assert forall|w: ParseErrorSeverity| #[trigger] w.name() == v.name() implies w == v by {
            if w != v {
                assert(w.name().len() != v.name().len() || w.name()[0] != v.name()[0]);
            }
        }
        match v {
            ParseErrorSeverity::Warning => {},
            ParseErrorSeverity::Error => {},
        }
    }

    /// The stored name (the `Display` text).
    pub fn to_string(&self) -> (r: String)
        ensures
            r@ == self.name(),
    {
        match self {
            ParseErrorSeverity::Warning => String::from_str("warning"),
            ParseErrorSeverity::Error => String::from_str("error"),
        }
    }

    /// Reads a parse error severity from its name, in any letter case.
    pub fn from_str(s: &str) -> (r: Result<ParseErrorSeverity, String>)
        ensures
            match r {
                Ok(v) => lowercase(s@) == v.name(),
                Err(m) => (forall|v: ParseErrorSeverity| lowercase(s@) != v.name()) && m@
                    == "Unknown parse error severity: "@ + lowercase(s@),
            },
            forall|w: ParseErrorSeverity| #[trigger] w.name() == s@ ==> r == Ok::<ParseErrorSeverity, String>(w),
    {
        let low = to_lowercase(s);
        proof {
            assert forall|w: ParseErrorSeverity| #[trigger] w.name() == s@ implies lowercase(s@) == w.name() && (
            forall|u: ParseErrorSeverity| #[trigger] u.name() == w.name() ==> u == w) by {
                ParseErrorSeverity::lemma_names(w);
            }
            ParseErrorSeverity::lemma_names(ParseErrorSeverity::Warning);
            ParseErrorSeverity::lemma_names(ParseErrorSeverity::Error);
        }
        let l = chars_of(low.as_str());
        if crate::text::same_chars(&l, &chars_of("warning")) {
            Ok(ParseErrorSeverity::Warning)
        } else if crate::text::same_chars(&l, &chars_of("error")) {
            Ok(ParseErrorSeverity::Error)
        } else {
            proof {
                assert forall|v: ParseErrorSeverity| lowercase(s@) != v.name() by {
                    match v {
                        ParseErrorSeverity::Warning => {},
                        ParseErrorSeverity::Error => {},
                    }
                }
            }
            Err(message_with("Unknown parse error severity: ", low.as_str()))
        }
    }
}

// --- Row structs ---

/// A registered project.
#[derive(Debug, Clone)]
pub struct Project {
    pub id: String,
    pub name: String,
    pub path: String,
    pub status: String,
    pub retention_days: Option<i64>,
    pub created_at: String,
    pub last_seen_at: String,
}

/// The stored state of a phase.
#[derive(Debug, Clone)]
pub struct PhaseState {
    pub id: i64,
    pub project_id: String,
    pub phase_number: String,
    pub phase_name: String,
    pub goal: Option<String>,
    pub depends_on: Option<String>,
    pub stage: String,
    pub status: Option<String>,
    pub requirements: Option<String>,
    pub plan_count: Option<i64>,
    pub completed_plan_count: Option<i64>,
    pub updated_at: String,
}

/// The stored state of a plan.
#[derive(Debug, Clone)]
pub struct PlanState {
    pub id: i64,
    pub project_id: String,
    pub phase_number: String,
    pub plan_number: String,
    pub plan_name: Option<String>,
    pub wave: Option<i64>,
    pub depends_on: Option<String>,
    pub plan_type: Option<String>,
    pub status: String,
    pub requirements: Option<String>,
    pub files_modified: Option<String>,
    pub updated_at: String,
}

/// A commit recorded for an execution run.
#[derive(Debug, Clone)]
pub struct Commit {
    pub id: i64,
    pub execution_run_id: i64,
    pub task_number: i64,
    pub task_name: Option<String>,
    pub commit_hash: Option<String>,
    pub commit_type: Option<String>,
    pub created_at: String,
}

/// A recorded agent session.
#[derive(Debug, Clone)]
pub struct AgentSession {
    pub id: i64,
    pub project_id: String,
    pub agent_id: Option<String>,
    pub agent_type: Option<String>,
    pub phase_number: Option<String>,
    pub plan_number: Option<String>,
    pub started_at: Option<String>,
    pub ended_at: Option<String>,
    pub created_at: String,
}

/// The stored outcome of a phase verification.
#[derive(Debug, Clone)]
pub struct VerificationResult {
    pub id: i64,
    pub project_id: String,
    pub phase_number: String,
    pub status: String,
    pub score: Option<String>,
    pub verified_at: Option<String>,
    pub created_at: String,
}

/// A recorded parse error.
#[derive(Debug, Clone)]
pub struct ParseError {
    pub id: i64,
    pub project_id: String,
    pub file_path: String,
    pub error_message: String,
    pub severity: String,
    pub occurred_at: String,
    pub resolved_at: Option<String>,
}

/// The stored config.json of a project.
#[derive(Debug, Clone)]
pub struct ProjectConfig {
    pub id: i64,
    pub project_id: String,
    pub config_json: String,
    pub updated_at: String,
}

} // verus!
