use gsdui::db::models::PhaseStage;
use gsdui::json::Json;
use gsdui::parser::agent_history::parse_agent_history;
use gsdui::parser::config_json::parse_config_json;
use gsdui::parser::frontmatter::{parse_frontmatter, split_frontmatter};
use gsdui::parser::plan::parse_plan_md;
use gsdui::parser::roadmap::parse_roadmap;
use gsdui::parser::stage::derive_stage;
use gsdui::parser::state_md::{parse_current_position, parse_state_md};
use gsdui::parser::summary::{parse_commit_section, parse_summary_md};
use gsdui::parser::verification::{parse_verification_md, VerificationStatus};
use gsdui::parser::ParseError;

const ROADMAP_FIXTURE: &str = r#"# Roadmap: GSD Pipeline UI

## Overview

GSD Pipeline UI delivers a browser-based dashboard for observing and interacting with GSD agent pipelines in real-time.

## Phases

**Phase Numbering:**
- Integer phases (1, 2, 3): Planned milestone work
- Decimal phases (2.1, 2.2): Urgent insertions (marked with INSERTED)

- [ ] **Phase 1: Backend Foundation and State Pipeline** - Axum daemon, file watcher, GSD state parsers
- [ ] **Phase 2: Pipeline Dashboard** - Pipeline visualization frontend
- [ ] **Phase 2.1: Hotfix Sprint** - Critical fixes identified during Phase 2
- [ ] **Phase 3: Interactive Terminal System** - Browser-based PTY terminals

## Phase Details

### Phase 1: Backend Foundation and State Pipeline
**Goal**: The daemon can watch any registered project's `.planning/` directory and push live state updates
**Depends on**: Nothing (first phase)
**Requirements**: STATE-01, STATE-02, STATE-03
**Plans:** 4 plans

Plans:
- [x] 01-01-PLAN.md -- Project scaffold, REST API, database layer
- [ ] 01-02-PLAN.md -- GSD state file parsers with TDD
- [ ] 01-03-PLAN.md -- File watcher with custom debouncer
- [ ] 01-04-PLAN.md -- WebSocket state endpoint

### Phase 2: Pipeline Dashboard
**Goal**: Users can see the full GSD pipeline status in real-time
**Depends on**: Phase 1
**Requirements**: PIPE-01, PIPE-02
**Plans**: 3 plans

Plans:
- [ ] 02-01-PLAN.md -- SvelteKit scaffold, Aurora theme
- [ ] 02-02-PLAN.md -- WebSocket client, phase timeline
- [ ] 02-03-PLAN.md -- Wave visualization, plan cards

### Phase 2.1: Hotfix Sprint
**Goal**: Address critical issues discovered during Phase 2 development
**Depends on**: Phase 2
**Requirements**: PIPE-03
**Plans**: 1 plan

Plans:
- [ ] 02.1-01-PLAN.md -- Fix rendering bugs in plan cards

### Phase 3: Interactive Terminal System
**Goal**: Users can open interactive terminal sessions in the browser
**Depends on**: Phase 1
**Requirements**: TERM-01, TERM-02
**Plans**: 2 plans

Plans:
- [ ] 03-01-PLAN.md -- PTY manager and binary WebSocket endpoint
- [ ] 03-02-PLAN.md -- xterm.js Console tab with sub-tabs

## Progress

**Execution Order:**
Phases execute in numeric order: 1 -> 2 -> 2.1 -> 3

| Phase | Plans Complete | Status | Completed |
|-------|----------------|--------|-----------|
| 1. Backend Foundation and State Pipeline | 1/4 | In Progress | - |
| 2. Pipeline Dashboard | 0/3 | Not started | - |
| 2.1. Hotfix Sprint | 0/1 | Not started | - |
| 3. Interactive Terminal System | 0/2 | Not started | - |
"#;

const SUMMARY_FIXTURE: &str = r#"---
phase: 01-backend-foundation
plan: 1
subsystem: api, database, infra
tags: [rust, axum, sqlx, sqlite]

requires: []
provides:
  - "Compiled Rust binary with Axum server"
  - "SQLite database with 9-table schema"
affects: [01-02, 01-03]

tech-stack:
  added: [axum 0.8, tokio 1, sqlx 0.8]
  patterns: [lib+bin crate structure]

key-files:
  created:
    - Cargo.toml
    - src/main.rs
    - src/db/mod.rs
    - src/db/models.rs
  modified: []

key-decisions:
  - "Used lib+bin crate structure"
  - "Used RETURNING * in SQLx queries"

requirements-completed: [STATE-11, STATE-12, INFRA-01]

duration: 9min
completed: 2026-03-06
---

# Phase 01 Plan 01: Project Scaffold and REST API Summary

**Axum daemon with SQLite schema, project CRUD, health endpoint -- 17 tests passing**

## Performance

- **Duration:** 9 min
- **Started:** 2026-03-06T19:45:33Z
- **Completed:** 2026-03-06T19:54:33Z
- **Tasks:** 2
- **Files modified:** 15

## Accomplishments
- Full Rust project scaffold with dependencies
- SQLite migration with 9 tables
- Project CRUD REST API

## Task Commits

Each task was committed atomically:

1. **Task 1: Rust project scaffold and database layer** - `5f0a9d2` (feat)
2. **Task 2: REST API and health endpoint** - `469604c` (feat)

## Files Created/Modified
- `Cargo.toml` - Project manifest
- `src/main.rs` - Axum server

## Deviations from Plan

### Auto-fixed Issues

**1. [Rule 3 - Blocking] Installed libssl-dev**
- **Found during:** Task 1
- **Fix:** Installed system packages

---

*Phase: 01-backend-foundation*
*Completed: 2026-03-06*
"#;

fn get<'a>(v: &'a Json, key: &str) -> Option<&'a Json> {
    match v {
        Json::Object(entries) => entries.iter().find(|(k, _)| k == key).map(|(_, x)| x),
        _ => None,
    }
}

fn as_str(v: &Json) -> Option<&str> {
    match v {
        Json::Str(s) => Some(s.as_str()),
        _ => None,
    }
}

fn as_bool(v: &Json) -> Option<bool> {
    match v {
        Json::Bool(b) => Some(*b),
        _ => None,
    }
}

fn as_i64(v: &Json) -> Option<i64> {
    match v {
        Json::Number(n) => n.as_i64(),
        _ => None,
    }
}

fn strs(v: &[String]) -> Vec<&str> {
    v.iter().map(|s| s.as_str()).collect()
}

// --- frontmatter ---

#[test]
fn test_parse_valid_frontmatter() {
    let input = "---\ntitle: Hello\ncount: 42\n---\nBody content here.";
    let doc = parse_frontmatter(input).unwrap();
    assert_eq!(get(&doc.metadata, "title").and_then(as_str), Some("Hello"));
    assert_eq!(get(&doc.metadata, "count").and_then(as_i64), Some(42));
    assert_eq!(doc.content, "Body content here.");
}

#[test]
fn test_parse_frontmatter_with_bom() {
    let input = "\u{FEFF}---\ntitle: BOM Test\ncount: 1\n---\nAfter BOM.";
    let doc = parse_frontmatter(input).unwrap();
    assert_eq!(get(&doc.metadata, "title").and_then(as_str), Some("BOM Test"));
    assert_eq!(doc.content, "After BOM.");
}

#[test]
fn test_parse_frontmatter_with_leading_whitespace() {
    let input = "  \n  ---\ntitle: Spaced\ncount: 5\n---\nContent.";
    let doc = parse_frontmatter(input).unwrap();
    assert_eq!(get(&doc.metadata, "title").and_then(as_str), Some("Spaced"));
    assert_eq!(doc.content, "Content.");
}

#[test]
fn test_no_frontmatter() {
    let input = "Just plain text without any frontmatter.";
    match parse_frontmatter(input) {
        Err(ParseError::NoFrontmatter) => {}
        other => panic!("Expected NoFrontmatter, got: {:?}", other.map(|d| d.content)),
    }
}

#[test]
fn test_unclosed_frontmatter() {
    let input = "---\ntitle: Unclosed\ncount: 1\nNo closing delimiter";
    match parse_frontmatter(input) {
        Err(ParseError::UnclosedFrontmatter) => {}
        other => panic!("Expected UnclosedFrontmatter, got: {:?}", other.map(|d| d.content)),
    }
}

#[test]
fn test_invalid_yaml() {
    let input = "---\ninvalid: [unclosed\n---\n";
    match parse_frontmatter(input) {
        Err(ParseError::YamlError(_)) => {}
        other => panic!("Expected YamlError, got: {:?}", other.map(|d| d.content)),
    }
}

#[test]
fn test_empty_body() {
    let input = "---\ntitle: NoBody\ncount: 0\n---\n";
    let doc = parse_frontmatter(input).unwrap();
    assert_eq!(get(&doc.metadata, "title").and_then(as_str), Some("NoBody"));
    assert_eq!(doc.content, "");
}

#[test]
fn test_multiline_body() {
    let input = "---\ntitle: Multi\ncount: 2\n---\nLine 1\nLine 2\nLine 3";
    let doc = parse_frontmatter(input).unwrap();
    assert_eq!(doc.content, "Line 1\nLine 2\nLine 3");
}

#[test]
fn test_hashmap_metadata() {
    let input = "---\nfoo: bar\nbaz: 123\n---\n";
    let doc = parse_frontmatter(input).unwrap();
    assert_eq!(get(&doc.metadata, "foo").and_then(as_str), Some("bar"));
    assert_eq!(get(&doc.metadata, "baz").and_then(as_i64), Some(123));
}

#[test]
fn test_split_frontmatter_crlf_and_closing_variants() {
    let (yaml, body) = split_frontmatter("---\r\na: 1\r\n---\r\nBody").unwrap();
    assert_eq!(yaml, "a: 1\r\n");
    assert_eq!(body, "Body");
    // A closing delimiter followed by a space counts; one followed by text does not.
    let (yaml, body) = split_frontmatter("---\na: 1\n---x\n--- \nrest").unwrap();
    assert_eq!(yaml, "a: 1\n---x\n");
    assert_eq!(body, " \nrest");
    // Whitespace before a byte-order mark hides the frontmatter.
    assert!(matches!(split_frontmatter(" \u{FEFF}---\na\n---\n"), Err(ParseError::NoFrontmatter)));
    // An opening line without a line break is unclosed.
    assert!(matches!(split_frontmatter("---"), Err(ParseError::UnclosedFrontmatter)));
}

#[test]
fn test_frontmatter_roundtrip_law_example() {
    let (yaml, body) = split_frontmatter("---\nk: v\nlist: [a]\n---\nany --- body\n---\n").unwrap();
    assert_eq!(yaml, "k: v\nlist: [a]\n");
    assert_eq!(body, "any --- body\n---\n");
    assert_eq!(
        split_frontmatter("\u{FEFF}\n---\nk: v\n---\nb").unwrap(),
        split_frontmatter("---\nk: v\n---\nb").unwrap()
    );
}

#[test]
fn test_parse_error_messages() {
    assert_eq!(ParseError::NoFrontmatter.message(), "No YAML frontmatter found");
    assert_eq!(
        ParseError::UnclosedFrontmatter.message(),
        "Unclosed YAML frontmatter (missing closing ---)"
    );
    assert_eq!(
        ParseError::InvalidContent("x".to_string()).message(),
        "Invalid content: x"
    );
    assert_eq!(ParseError::JsonError("bad".to_string()).message(), "JSON parse error: bad");
}

// --- roadmap ---

#[test]
fn test_parse_roadmap_phases() {
    let data = parse_roadmap(ROADMAP_FIXTURE).unwrap();
    assert!(data.phases.len() >= 3, "Should have at least 3 phases");
    let phase1 = &data.phases[0];
    assert_eq!(phase1.number, "1");
    assert_eq!(phase1.name, "Backend Foundation and State Pipeline");
    assert!(phase1.goal.is_some());
    assert!(phase1.depends_on.is_empty());
}

#[test]
fn test_parse_roadmap_decimal_phases() {
    let data = parse_roadmap(ROADMAP_FIXTURE).unwrap();
    let phase_2_1 = data.phases.iter().find(|p| p.number == "2.1");
    assert!(phase_2_1.is_some(), "Should find Phase 2.1");
    assert_eq!(phase_2_1.unwrap().name, "Hotfix Sprint");
    let numbers: Vec<&str> = data.phases.iter().map(|p| p.number.as_str()).collect();
    assert_eq!(numbers, vec!["1", "2", "2.1", "3"]);
}

#[test]
fn test_parse_roadmap_plan_checklist() {
    let data = parse_roadmap(ROADMAP_FIXTURE).unwrap();
    let phase1 = &data.phases[0];
    assert!(!phase1.plans.is_empty(), "Phase 1 should have plan items");
    let first_plan = &phase1.plans[0];
    assert!(first_plan.completed, "First plan should be completed");
    assert!(first_plan.filename.contains("01-01-PLAN.md"));
}

#[test]
fn test_parse_roadmap_requirements() {
    let data = parse_roadmap(ROADMAP_FIXTURE).unwrap();
    let phase1 = &data.phases[0];
    assert!(!phase1.requirements.is_empty());
    assert!(phase1.requirements.contains(&"STATE-01".to_string()));
}

#[test]
fn test_parse_roadmap_plan_count() {
    let data = parse_roadmap(ROADMAP_FIXTURE).unwrap();
    assert_eq!(data.phases[0].plan_count, Some(4));
}

#[test]
fn test_parse_roadmap_execution_order() {
    let data = parse_roadmap(ROADMAP_FIXTURE).unwrap();
    assert!(data.execution_order.is_some());
    assert!(data.execution_order.unwrap().contains("1 -> 2"));
}

#[test]
fn test_parse_roadmap_empty_input() {
    match parse_roadmap("") {
        Err(ParseError::InvalidContent(_)) => {}
        Err(e) => panic!("Expected InvalidContent, got: {}", e.message()),
        Ok(_) => panic!("Expected InvalidContent, got Ok"),
    }
}

#[test]
fn test_parse_roadmap_no_phases() {
    let input = "# Roadmap\n\nJust an overview, no phase details.";
    let data = parse_roadmap(input).unwrap();
    assert!(data.phases.is_empty());
}

#[test]
fn test_parse_roadmap_fixture_details() {
    let data = parse_roadmap(ROADMAP_FIXTURE).unwrap();
    let p1 = &data.phases[0];
    assert_eq!(strs(&p1.requirements), vec!["STATE-01", "STATE-02", "STATE-03"]);
    assert_eq!(p1.plans.len(), 4);
    assert_eq!(p1.plans[0].filename, "01-01-PLAN.md");
    assert_eq!(p1.plans[0].description, "Project scaffold, REST API, database layer");
    assert!(!p1.plans[1].completed);
    let p2 = &data.phases[1];
    assert_eq!(strs(&p2.depends_on), vec!["Phase 1"]);
    assert_eq!(p2.plan_count, Some(3));
    assert_eq!(
        data.execution_order.as_deref(),
        Some("Phases execute in numeric order: 1 -> 2 -> 2.1 -> 3")
    );
}

#[test]
fn test_parse_roadmap_whitespace_only_is_empty() {
    match parse_roadmap("  \n\t ") {
        Err(ParseError::InvalidContent(m)) => assert_eq!(m, "ROADMAP.md content is empty"),
        _ => panic!("Expected InvalidContent"),
    }
}

// --- stage ---

fn names(v: &[&str]) -> Vec<String> {
    v.iter().map(|s| s.to_string()).collect()
}

#[test]
fn test_derive_stage_planned_empty() {
    assert_eq!(derive_stage(&[], 0), PhaseStage::Planned);
}

#[test]
fn test_derive_stage_discussed() {
    let files = names(&["01-CONTEXT.md"]);
    assert_eq!(derive_stage(&files, 0), PhaseStage::Discussed);
}

#[test]
fn test_derive_stage_researched() {
    let files = names(&["01-CONTEXT.md", "01-RESEARCH.md"]);
    assert_eq!(derive_stage(&files, 0), PhaseStage::Researched);
}

#[test]
fn test_derive_stage_planned_ready() {
    let files = names(&["01-CONTEXT.md", "01-RESEARCH.md", "01-01-PLAN.md", "01-02-PLAN.md"]);
    assert_eq!(derive_stage(&files, 2), PhaseStage::PlannedReady);
}

#[test]
fn test_derive_stage_executing_some_summaries() {
    let files = names(&[
        "01-CONTEXT.md",
        "01-RESEARCH.md",
        "01-01-PLAN.md",
        "01-02-PLAN.md",
        "01-03-PLAN.md",
        "01-01-SUMMARY.md",
    ]);
    assert_eq!(derive_stage(&files, 3), PhaseStage::Executing);
}

#[test]
fn test_derive_stage_executed_all_summaries() {
    let files = names(&[
        "01-CONTEXT.md",
        "01-RESEARCH.md",
        "01-01-PLAN.md",
        "01-02-PLAN.md",
        "01-01-SUMMARY.md",
        "01-02-SUMMARY.md",
    ]);
    assert_eq!(derive_stage(&files, 2), PhaseStage::Executed);
}

#[test]
fn test_derive_stage_verified() {
    let files = names(&[
        "01-CONTEXT.md",
        "01-RESEARCH.md",
        "01-01-PLAN.md",
        "01-01-SUMMARY.md",
        "01-VERIFICATION.md",
    ]);
    assert_eq!(derive_stage(&files, 1), PhaseStage::Verified);
}

#[test]
fn test_derive_stage_verified_overrides_executing() {
    let files = names(&["01-01-PLAN.md", "01-01-SUMMARY.md", "01-VERIFICATION.md"]);
    assert_eq!(derive_stage(&files, 3), PhaseStage::Verified);
}

#[test]
fn test_derive_stage_unknown_files_only() {
    let files = names(&["random-notes.txt", "scratch.md"]);
    assert_eq!(derive_stage(&files, 0), PhaseStage::Planned);
}

#[test]
fn test_derive_stage_adding_a_file_never_regresses() {
    let base = names(&["01-01-PLAN.md", "01-01-SUMMARY.md"]);
    let before = derive_stage(&base, 2);
    let mut more = base.clone();
    more.push("01-CONTEXT.md".to_string());
    let after = derive_stage(&more, 2);
    assert_eq!(before, PhaseStage::Executing);
    assert_eq!(after, PhaseStage::Executing);
    more.push("01-02-SUMMARY.md".to_string());
    assert_eq!(derive_stage(&more, 2), PhaseStage::Executed);
}

// --- STATE.md ---

const STATE_SAMPLE: &str = "---\ngsd_state_version: \"1.0\"\nmilestone: v1.0\nmilestone_name: milestone\nstatus: executing\nstopped_at: Completed 01-01-PLAN.md\nlast_updated: \"2026-03-06T19:54:33Z\"\nlast_activity: 2026-03-06 -- Completed plan\nprogress:\n  total_phases: 4\n  completed_phases: 0\n  total_plans: 11\n  completed_plans: 1\n  percent: 9\n---\n\n# Project State\n\n## Current Position\n\nPhase: 1 of 4 (Backend Foundation)\nPlan: 2 of 4 in current phase\nStatus: Executing\n";

#[test]
fn test_parse_state_md_frontmatter() {
    let data = parse_state_md(STATE_SAMPLE).unwrap();
    assert_eq!(data.gsd_state_version.as_deref(), Some("1.0"));
    assert_eq!(data.milestone.as_deref(), Some("v1.0"));
    assert_eq!(data.milestone_name.as_deref(), Some("milestone"));
    assert_eq!(data.status.as_deref(), Some("executing"));
    assert_eq!(data.stopped_at.as_deref(), Some("Completed 01-01-PLAN.md"));
    assert_eq!(data.last_updated.as_deref(), Some("2026-03-06T19:54:33Z"));
    assert!(data.last_activity.is_some());
}

#[test]
fn test_parse_state_md_progress() {
    let data = parse_state_md(STATE_SAMPLE).unwrap();
    let progress = data.progress.expect("progress should be present");
    assert_eq!(progress.total_phases, Some(4));
    assert_eq!(progress.completed_phases, Some(0));
    assert_eq!(progress.total_plans, Some(11));
    assert_eq!(progress.completed_plans, Some(1));
    assert_eq!(progress.percent, Some(9));
}

#[test]
fn test_parse_state_md_current_position() {
    let data = parse_state_md(STATE_SAMPLE).unwrap();
    assert_eq!(data.current_phase.as_deref(), Some("1"));
    assert_eq!(data.current_plan.as_deref(), Some("2"));
}

#[test]
fn test_parse_state_md_empty_input() {
    match parse_state_md("") {
        Err(ParseError::NoFrontmatter) => {}
        Err(e) => panic!("Expected NoFrontmatter, got: {}", e.message()),
        Ok(_) => panic!("Expected NoFrontmatter, got Ok"),
    }
}

#[test]
fn test_parse_state_md_no_body_position() {
    let input = "---\nstatus: executing\n---\nNo current position section here.";
    let data = parse_state_md(input).unwrap();
    assert_eq!(data.status.as_deref(), Some("executing"));
    assert!(data.current_phase.is_none());
    assert!(data.current_plan.is_none());
}

#[test]
fn test_parse_current_position_patterns() {
    let (phase, plan) = parse_current_position("Phase:12  of 30\nPlan: 3 of");
    assert_eq!(phase.as_deref(), Some("12"));
    assert_eq!(plan, None);
    let (phase, _) = parse_current_position("Phase: 1of 2, then Phase: 7\tof\n 9");
    assert_eq!(phase.as_deref(), Some("7"));
    let (_, plan) = parse_current_position("Plan:\u{0663} of 4");
    assert_eq!(plan.as_deref(), Some("\u{0663}"));
}

#[test]
fn test_parse_state_md_wrong_field_type_is_yaml_error() {
    match parse_state_md("---\nstatus: [a, b]\n---\n") {
        Err(ParseError::YamlError(m)) => {
            assert_eq!(m, "frontmatter fields do not have the expected types")
        }
        _ => panic!("Expected YamlError"),
    }
    match parse_state_md("---\n- a\n---\n") {
        Err(ParseError::YamlError(_)) => {}
        _ => panic!("Expected YamlError"),
    }
}

// --- VERIFICATION.md ---

#[test]
fn test_parse_verification_md_passed() {
    let input = "---\nphase: 01-backend-foundation\nstatus: passed\nscore: \"5/5\"\nverified_at: \"2026-03-06T20:15:00Z\"\n---\nAll good.";
    let data = parse_verification_md(input).unwrap();
    assert_eq!(data.phase.as_deref(), Some("01-backend-foundation"));
    assert_eq!(data.status, VerificationStatus::Passed);
    assert_eq!(data.score.as_deref(), Some("5/5"));
    assert_eq!(data.verified_at.as_deref(), Some("2026-03-06T20:15:00Z"));
}

#[test]
fn test_parse_verification_md_gaps_found() {
    let input = "---\nphase: test\nstatus: gaps_found\nscore: \"3/5\"\n---\nGaps found.";
    let data = parse_verification_md(input).unwrap();
    assert_eq!(data.status, VerificationStatus::GapsFound);
    assert_eq!(data.score.as_deref(), Some("3/5"));
}

#[test]
fn test_parse_verification_md_human_needed() {
    let input = "---\nstatus: human_needed\nscore: \"2/5\"\n---\nNeeds human review.";
    let data = parse_verification_md(input).unwrap();
    assert_eq!(data.status, VerificationStatus::HumanNeeded);
}

#[test]
fn test_parse_verification_md_missing_status() {
    let input = "---\nphase: test\nscore: \"5/5\"\n---\nNo status.";
    match parse_verification_md(input) {
        Err(ParseError::InvalidContent(msg)) => assert!(msg.contains("status")),
        _ => panic!("Expected InvalidContent"),
    }
}

#[test]
fn test_parse_verification_md_invalid_status() {
    let input = "---\nstatus: unknown_value\n---\nBad status.";
    match parse_verification_md(input) {
        Err(ParseError::InvalidContent(msg)) => {
            assert!(msg.contains("unknown_value"));
            assert_eq!(msg, "Unknown verification status: 'unknown_value'");
        }
        _ => panic!("Expected InvalidContent"),
    }
}

#[test]
fn test_parse_verification_md_empty_input() {
    assert!(parse_verification_md("").is_err());
}

#[test]
fn test_verification_status_display() {
    assert_eq!(VerificationStatus::Passed.to_string(), "passed");
    assert_eq!(VerificationStatus::GapsFound.to_string(), "gaps_found");
    assert_eq!(VerificationStatus::HumanNeeded.to_string(), "human_needed");
}

// --- PLAN.md ---

const PLAN_SAMPLE: &str = "---\nphase: 01-backend-foundation\nplan: 1\ntype: standard\nwave: \"1\"\ndepends_on: [none]\nfiles_modified:\n  - Cargo.toml\n  - src/main.rs\nautonomous: true\nrequirements: [STATE-11, STATE-12, INFRA-01]\nmust_haves:\n  truths:\n    - \"Server starts\"\n  artifacts:\n    - path: src/main.rs\n---\n\n# Plan 01-01: Project Scaffold\n";

#[test]
fn test_parse_plan_md_frontmatter() {
    let data = parse_plan_md(PLAN_SAMPLE).unwrap();
    assert_eq!(data.phase.as_deref(), Some("01-backend-foundation"));
    assert_eq!(data.plan, Some(1));
    assert_eq!(data.plan_type.as_deref(), Some("standard"));
    assert_eq!(data.wave, Some(1));
    assert!(data.autonomous);
}

#[test]
fn test_parse_plan_md_arrays() {
    let data = parse_plan_md(PLAN_SAMPLE).unwrap();
    assert_eq!(strs(&data.depends_on), vec!["none"]);
    assert!(!data.files_modified.is_empty());
    assert!(data.files_modified.contains(&"src/main.rs".to_string()));
    assert_eq!(strs(&data.requirements), vec!["STATE-11", "STATE-12", "INFRA-01"]);
}

#[test]
fn test_parse_plan_md_must_haves() {
    let data = parse_plan_md(PLAN_SAMPLE).unwrap();
    let must_haves = data.must_haves.expect("must_haves");
    assert!(get(&must_haves, "truths").is_some());
    assert!(get(&must_haves, "artifacts").is_some());
}

#[test]
fn test_parse_plan_md_body() {
    let data = parse_plan_md(PLAN_SAMPLE).unwrap();
    assert!(data.body.contains("Plan 01-01"));
}

#[test]
fn test_parse_plan_md_empty_input() {
    assert!(parse_plan_md("").is_err());
}

#[test]
fn test_parse_plan_md_minimal() {
    let input = "---\nphase: test\nplan: 5\n---\nMinimal plan.";
    let data = parse_plan_md(input).unwrap();
    assert_eq!(data.phase.as_deref(), Some("test"));
    assert_eq!(data.plan, Some(5));
    assert!(!data.autonomous);
    assert!(data.depends_on.is_empty());
    assert!(data.requirements.is_empty());
}

#[test]
fn test_parse_plan_md_number_forms() {
    let data = parse_plan_md("---\nplan: \"-7\"\nwave: x2\nmust_haves: null\n---\n").unwrap();
    assert_eq!(data.plan, Some(-7));
    assert_eq!(data.wave, None);
    assert!(data.must_haves.is_none());
    let data = parse_plan_md("---\nplan: [1]\nautonomous: false\n---\n").unwrap();
    assert_eq!(data.plan, None);
    assert!(!data.autonomous);
}

// --- SUMMARY.md ---

#[test]
fn test_parse_summary_md_frontmatter() {
    let data = parse_summary_md(SUMMARY_FIXTURE).unwrap();
    assert_eq!(data.phase.as_deref(), Some("01-backend-foundation"));
    assert_eq!(data.plan, Some(1));
    assert_eq!(data.duration.as_deref(), Some("9min"));
    assert_eq!(data.completed.as_deref(), Some("2026-03-06"));
}

#[test]
fn test_parse_summary_md_key_files() {
    let data = parse_summary_md(SUMMARY_FIXTURE).unwrap();
    assert!(!data.key_files.is_empty());
    assert!(data.key_files.contains(&"Cargo.toml".to_string()));
    assert!(data.key_files.contains(&"src/main.rs".to_string()));
}

#[test]
fn test_parse_summary_md_requirements_completed() {
    let data = parse_summary_md(SUMMARY_FIXTURE).unwrap();
    assert_eq!(strs(&data.requirements_completed), vec!["STATE-11", "STATE-12", "INFRA-01"]);
}

#[test]
fn test_parse_summary_md_commits() {
    let data = parse_summary_md(SUMMARY_FIXTURE).unwrap();
    assert_eq!(data.commits.len(), 2);
    let first = &data.commits[0];
    assert_eq!(first.task_number, 1);
    assert!(first.task_name.contains("scaffold"));
    assert_eq!(first.commit_hash.as_deref(), Some("5f0a9d2"));
    assert_eq!(first.commit_type.as_deref(), Some("feat"));
    let second = &data.commits[1];
    assert_eq!(second.task_number, 2);
    assert_eq!(second.commit_hash.as_deref(), Some("469604c"));
}

#[test]
fn test_parse_summary_md_zero_commits() {
    let input = "---\nphase: test\nplan: 1\n---\n# Summary\n\nNo task commits section here.";
    let data = parse_summary_md(input).unwrap();
    assert!(data.commits.is_empty());
}

#[test]
fn test_parse_summary_md_empty_input() {
    assert!(parse_summary_md("").is_err());
}

#[test]
fn test_parse_summary_md_provides_and_affects() {
    let data = parse_summary_md(SUMMARY_FIXTURE).unwrap();
    assert!(data.provides.is_some());
    assert!(data.affects.is_some());
}

#[test]
fn test_parse_summary_md_fixture_values() {
    let data = parse_summary_md(SUMMARY_FIXTURE).unwrap();
    assert_eq!(strs(&data.key_files), vec!["Cargo.toml", "src/main.rs", "src/db/mod.rs", "src/db/models.rs"]);
    assert_eq!(
        data.provides.as_deref(),
        Some("Compiled Rust binary with Axum server, SQLite database with 9-table schema")
    );
    assert_eq!(data.affects.as_deref(), Some("01-02, 01-03"));
    assert_eq!(data.commits[0].task_name, "Task 1: Rust project scaffold and database layer");
    assert_eq!(data.commits[0].commit_message, None);
}

#[test]
fn test_parse_commit_section_forms() {
    let body = "## Task Commits\n1. **A**b** -- `ab12` ( x)\n2. **T:**  -  `zz` (fix)\n10.  **N** - `0f`(chore)\n## Next\n3. **X** - `aa` (feat)";
    let commits = parse_commit_section(body);
    assert_eq!(commits.len(), 1);
    assert_eq!(commits[0].task_number, 10);
    assert_eq!(commits[0].task_name, "N");
    assert_eq!(commits[0].commit_hash.as_deref(), Some("0f"));
    assert_eq!(commits[0].commit_type.as_deref(), Some("chore"));
    let lazy = parse_commit_section("## Task Commits\n1. **a** - `1` (x)** - `2` (y)");
    assert_eq!(lazy.len(), 1);
    assert_eq!(lazy[0].task_name, "a");
    assert_eq!(lazy[0].commit_hash.as_deref(), Some("1"));
}

#[test]
fn test_parse_summary_md_scalar_provides() {
    let data = parse_summary_md("---\nprovides: one thing\naffects: 3\nkey-files: [a, 1, b]\n---\n").unwrap();
    assert_eq!(data.provides.as_deref(), Some("one thing"));
    assert_eq!(data.affects.as_deref(), Some("3"));
    assert_eq!(strs(&data.key_files), vec!["a", "b"]);
}

// --- agent-history.json ---

const HISTORY_SAMPLE: &str = r#"[
  {"agent_id": "agent-001", "agent_type": "planner", "phase": "01", "plan": "01", "started_at": "2026-03-06T19:00:00Z", "ended_at": "2026-03-06T19:10:00Z"},
  {"agent_id": "agent-002", "agent_type": "executor", "phase": "01", "plan": "01", "started_at": "2026-03-06T19:15:00Z", "ended_at": "2026-03-06T19:45:00Z", "extra_field": "some_custom_data"},
  {"agent_id": "agent-003", "agent_type": "verifier", "phase": "01", "started_at": "2026-03-06T20:00:00Z"}
]"#;

#[test]
fn test_parse_agent_history_records() {
    let sessions = parse_agent_history(HISTORY_SAMPLE).unwrap();
    assert_eq!(sessions.len(), 3);
    let first = &sessions[0];
    assert_eq!(first.agent_id.as_deref(), Some("agent-001"));
    assert_eq!(first.agent_type.as_deref(), Some("planner"));
    assert_eq!(first.phase.as_deref(), Some("01"));
    assert_eq!(first.plan.as_deref(), Some("01"));
    assert_eq!(first.started_at.as_deref(), Some("2026-03-06T19:00:00Z"));
    assert_eq!(first.ended_at.as_deref(), Some("2026-03-06T19:10:00Z"));
}

#[test]
fn test_parse_agent_history_extra_fields() {
    let sessions = parse_agent_history(HISTORY_SAMPLE).unwrap();
    let second = &sessions[1];
    assert_eq!(get(&second.extra, "extra_field").and_then(as_str), Some("some_custom_data"));
    assert!(get(&second.extra, "agent_id").is_none());
}

#[test]
fn test_parse_agent_history_missing_optional_fields() {
    let sessions = parse_agent_history(HISTORY_SAMPLE).unwrap();
    let third = &sessions[2];
    assert_eq!(third.agent_type.as_deref(), Some("verifier"));
    assert!(third.plan.is_none());
    assert!(third.ended_at.is_none());
}

#[test]
fn test_parse_agent_history_empty_array() {
    let sessions = parse_agent_history("[]").unwrap();
    assert!(sessions.is_empty());
}

#[test]
fn test_parse_agent_history_object_format() {
    let input = r#"{"sessions": [{"agent_id": "a1", "agent_type": "executor"}]}"#;
    let sessions = parse_agent_history(input).unwrap();
    assert_eq!(sessions.len(), 1);
    assert_eq!(sessions[0].agent_id.as_deref(), Some("a1"));
}

#[test]
fn test_parse_agent_history_empty_input() {
    assert!(parse_agent_history("").is_err());
}

#[test]
fn test_parse_agent_history_invalid_json() {
    match parse_agent_history("{bad json") {
        Err(ParseError::JsonError(_)) => {}
        _ => panic!("Expected JsonError"),
    }
}

#[test]
fn test_parse_agent_history_other_shapes() {
    let h = parse_agent_history(r#"{"history": [{"agent_id": "h"}]}"#).unwrap();
    assert_eq!(h[0].agent_id.as_deref(), Some("h"));
    match parse_agent_history(r#"{"sessions": 1, "history": []}"#) {
        Err(ParseError::InvalidContent(m)) => {
            assert_eq!(m, "agent-history.json object has no 'sessions' or 'history' array")
        }
        _ => panic!("Expected InvalidContent"),
    }
    match parse_agent_history("5") {
        Err(ParseError::InvalidContent(m)) => {
            assert_eq!(m, "agent-history.json must be an array or object")
        }
        _ => panic!("Expected InvalidContent"),
    }
    match parse_agent_history(r#"[{"agent_id": 5}]"#) {
        Err(ParseError::JsonError(_)) => {}
        _ => panic!("Expected JsonError"),
    }
    match parse_agent_history(" \n ") {
        Err(ParseError::InvalidContent(m)) => assert_eq!(m, "agent-history.json content is empty"),
        _ => panic!("Expected InvalidContent"),
    }
}

// --- config.json ---

const CONFIG_SAMPLE: &str = r#"{
  "mode": "yolo",
  "granularity": "coarse",
  "parallelization": true,
  "commit_docs": true,
  "model_profile": "quality",
  "workflow": {"research": true, "auto_advance": true},
  "planning": {"max_plans_per_phase": 5},
  "gates": {"require_verification": true},
  "safety": {"backup_before_destructive": true},
  "custom_field": "preserved_for_strict_mode"
}"#;

#[test]
fn test_parse_config_json_known_fields() {
    let config = parse_config_json(CONFIG_SAMPLE).unwrap();
    assert_eq!(config.mode.as_deref(), Some("yolo"));
    assert_eq!(config.granularity.as_deref(), Some("coarse"));
    assert_eq!(config.parallelization, Some(true));
    assert_eq!(config.commit_docs, Some(true));
    assert_eq!(config.model_profile.as_deref(), Some("quality"));
}

#[test]
fn test_parse_config_json_workflow() {
    let config = parse_config_json(CONFIG_SAMPLE).unwrap();
    let workflow = config.workflow.expect("workflow should exist");
    assert_eq!(get(&workflow, "research").and_then(as_bool), Some(true));
    assert_eq!(get(&workflow, "auto_advance").and_then(as_bool), Some(true));
}

#[test]
fn test_parse_config_json_nested_objects() {
    let config = parse_config_json(CONFIG_SAMPLE).unwrap();
    let planning = config.planning.expect("planning should exist");
    assert_eq!(get(&planning, "max_plans_per_phase").and_then(as_i64), Some(5));
    let gates = config.gates.expect("gates should exist");
    assert_eq!(get(&gates, "require_verification").and_then(as_bool), Some(true));
    let safety = config.safety.expect("safety should exist");
    assert_eq!(get(&safety, "backup_before_destructive").and_then(as_bool), Some(true));
}

#[test]
fn test_parse_config_json_preserves_unknown_fields() {
    let config = parse_config_json(CONFIG_SAMPLE).unwrap();
    let custom = get(&config.raw, "custom_field");
    assert!(custom.is_some(), "Unknown field should be preserved in raw");
    assert_eq!(custom.and_then(as_str), Some("preserved_for_strict_mode"));
}

#[test]
fn test_parse_config_json_empty_input() {
    assert!(parse_config_json("").is_err());
}

#[test]
fn test_parse_config_json_invalid_json() {
    match parse_config_json("{invalid json") {
        Err(ParseError::JsonError(_)) => {}
        _ => panic!("Expected JsonError"),
    }
}

#[test]
fn test_parse_config_json_minimal() {
    let config = parse_config_json(r#"{"mode": "safe"}"#).unwrap();
    assert_eq!(config.mode.as_deref(), Some("safe"));
    assert!(config.granularity.is_none());
    assert!(config.workflow.is_none());
}

#[test]
fn test_parse_config_json_wrong_type() {
    match parse_config_json(r#"{"parallelization": "yes"}"#) {
        Err(ParseError::JsonError(m)) => assert_eq!(m, "config fields do not have the expected types"),
        _ => panic!("Expected JsonError"),
    }
}

#[test]
fn test_parse_commit_section_unicode_word_type() {
    let commits = parse_commit_section("## Task Commits\n1. **Ünïcode task** - `abc` (fé_1)\n");
    assert_eq!(commits.len(), 1);
    assert_eq!(commits[0].task_name, "Ünïcode task");
    assert_eq!(commits[0].commit_type.as_deref(), Some("fé_1"));
    let none = parse_commit_section("## Task Commits\n1. **t** - `abc` (f-x)\n");
    assert!(none.is_empty());
}

#[test]
fn test_parse_roadmap_fixture_no_phase_completed() {
    let data = parse_roadmap(ROADMAP_FIXTURE).unwrap();
    assert!(data.phases.iter().all(|p| !p.completed));
}

#[test]
fn test_parse_roadmap_completed_from_progress_table() {
    let input = "# Roadmap\n\n### Phase 1: Backend\n**Goal**: a\n\n### Phase 2: Dashboard\n**Goal**: b\n\n### Phase 2.1: Hotfix\n**Goal**: c\n\n## Progress\n\n| Phase | Plans Complete | Status | Completed |\n|-------|----------------|--------|-----------|\n| 1. Backend | 4/4 | Complete | 2026-03-07 |\n| 2. Dashboard | 1/3 | In Progress | - |\n| 2.1. Hotfix | 1/1 | Complete | 2026-03-08 |\n";
    let data = parse_roadmap(input).unwrap();
    let numbers: Vec<&str> = data.phases.iter().map(|p| p.number.as_str()).collect();
    assert_eq!(numbers, vec!["1", "2", "2.1"]);
    assert!(data.phases[0].completed);
    assert!(!data.phases[1].completed);
    assert!(data.phases[2].completed);
}

#[test]
fn test_derive_stage_more_files_in_any_order_never_regress() {
    let base = names(&["01-01-PLAN.md", "01-RESEARCH.md"]);
    assert_eq!(derive_stage(&base, 2), PhaseStage::PlannedReady);
    let more = names(&["01-02-PLAN.md", "01-RESEARCH.md", "01-01-SUMMARY.md", "01-01-PLAN.md"]);
    assert_eq!(derive_stage(&more, 2), PhaseStage::Executing);
}

#[test]
fn test_unknown_config_fields_listed() {
    let doc = gsdui::json::parse_json_text(r#"{"zeta": 2, "mode": "yolo", "extra": true, "gates": {}}"#).unwrap();
    let unknown = gsdui::parser::config_json::unknown_config_fields(&doc);
    assert_eq!(unknown, vec!["extra".to_string(), "zeta".to_string()]);
}

#[test]
fn test_unknown_config_fields_none_for_known_or_non_object() {
    let doc = gsdui::json::parse_json_text(r#"{"mode": "yolo", "safety": null}"#).unwrap();
    assert!(gsdui::parser::config_json::unknown_config_fields(&doc).is_empty());
    let arr = gsdui::json::parse_json_text("[1, 2]").unwrap();
    assert!(gsdui::parser::config_json::unknown_config_fields(&arr).is_empty());
}
