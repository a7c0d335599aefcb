use gsdui::api::{
    content_type_for, create_error_status, decode_request_path, has_traversal, page_limit,
    page_offset, state_error_status,
};
use gsdui::broadcast::{clients_after_subscribe, clients_after_unsubscribe};
use gsdui::config::DaemonConfig;
use gsdui::db::models::{
    ParseErrorSeverity, PhaseStage, PlanStatus, Project, ProjectStatus, VerificationStatus,
};
use gsdui::db::schema::{
    merged_project_update, retention_days_or_default, run_bind_values, run_conditions,
    runs_count_sql, runs_data_sql, session_bind_values, sessions_sql, RunFilters,
    SessionFilters,
};
use gsdui::parser::plan::parse_plan_md;
use gsdui::parser::roadmap::parse_roadmap;
use gsdui::watcher::debounce::PendingEvents;
use gsdui::watcher::pipeline::{
    classify_file, count_plan_files, dir_phase_number, find_phase_dir, normalize_phase_number,
    phase_row, plan_row, run_lists, FileType,
};
use gsdui::watcher::{map_event_kind, should_process, FileEventKind};
use gsdui::ws::{memory_from_status, subscribe_projects, ClientMessage};
use notify::event::{
    AccessKind, CreateKind, DataChange, MetadataKind, ModifyKind, RemoveKind, RenameMode,
};
use notify::EventKind;

fn strings(v: &[&str]) -> Vec<String> {
    v.iter().map(|s| s.to_string()).collect()
}

// --- file classification ---

#[test]
fn test_classify_fixed_names() {
    assert!(matches!(classify_file("STATE.md"), FileType::StateMd));
    assert!(matches!(classify_file("ROADMAP.md"), FileType::RoadmapMd));
    assert!(matches!(classify_file("config.json"), FileType::ConfigJson));
    assert!(matches!(classify_file("agent-history.json"), FileType::AgentHistory));
    assert!(matches!(classify_file("state.md"), FileType::Unknown));
}

#[test]
fn test_classify_numbered_names() {
    match classify_file("01-02-PLAN.md") {
        FileType::PlanMd { phase_number, plan_number } => {
            assert_eq!(phase_number, "01");
            assert_eq!(plan_number, "02");
        }
        other => panic!("unexpected {:?}", other),
    }
    match classify_file("3-14-SUMMARY.md") {
        FileType::SummaryMd { phase_number, plan_number } => {
            assert_eq!(phase_number, "3");
            assert_eq!(plan_number, "14");
        }
        other => panic!("unexpected {:?}", other),
    }
    match classify_file("07-VERIFICATION.md") {
        FileType::VerificationMd { phase_number } => assert_eq!(phase_number, "07"),
        other => panic!("unexpected {:?}", other),
    }
    match classify_file("02-CONTEXT.md") {
        FileType::ContextOrResearch { phase_number } => assert_eq!(phase_number, "02"),
        other => panic!("unexpected {:?}", other),
    }
    match classify_file("02-RESEARCH.md") {
        FileType::ContextOrResearch { phase_number } => assert_eq!(phase_number, "02"),
        other => panic!("unexpected {:?}", other),
    }
    assert!(matches!(classify_file("02.1-01-PLAN.md"), FileType::Unknown));
    assert!(matches!(classify_file("01-01-PLAN.md.bak"), FileType::Unknown));
    assert!(matches!(classify_file("x01-01-PLAN.md"), FileType::Unknown));
    assert!(matches!(classify_file("01--PLAN.md"), FileType::Unknown));
}

// --- phase numbers and directories ---

#[test]
fn test_normalize_phase_number() {
    assert_eq!(normalize_phase_number("1"), "01");
    assert_eq!(normalize_phase_number("2"), "02");
    assert_eq!(normalize_phase_number("2.1"), "2.1");
    assert_eq!(normalize_phase_number("01"), "01");
    assert_eq!(normalize_phase_number("007"), "07");
    assert_eq!(normalize_phase_number("123"), "123");
    assert_eq!(normalize_phase_number("+5"), "05");
    assert_eq!(normalize_phase_number("abc"), "abc");
    assert_eq!(normalize_phase_number("4294967296"), "4294967296");
    assert_eq!(normalize_phase_number("4294967295"), "4294967295");
}

#[test]
fn test_normalize_phase_number_idempotent() {
    for s in ["1", "007", "2.1", "x", "+3", "10"] {
        let once = normalize_phase_number(s);
        assert_eq!(normalize_phase_number(&once), once);
    }
}

#[test]
fn test_dir_phase_number() {
    assert_eq!(dir_phase_number("01-backend-foundation"), "01");
    assert_eq!(dir_phase_number("02.1"), "02.1");
    assert_eq!(dir_phase_number("-x"), "");
}

#[test]
fn test_find_phase_dir() {
    let c = strings(&["/", "home", "p", ".planning", "phases", "01-x", "01-01-PLAN.md"]);
    assert_eq!(find_phase_dir(&c), Some(6));
    let nested = strings(&["phases", "a", "phases", "b", "c", "f.md"]);
    assert_eq!(find_phase_dir(&nested), Some(4));
    let none = strings(&["/", "home", ".planning", "STATE.md"]);
    assert_eq!(find_phase_dir(&none), None);
    let file_in_phases = strings(&["phases", "f.md"]);
    assert_eq!(find_phase_dir(&file_in_phases), None);
    assert_eq!(find_phase_dir(&[]), None);
}

#[test]
fn test_count_plan_files() {
    let files = strings(&["01-01-PLAN.md", "01-CONTEXT.md", "x-PLAN.md.bak", "PLAN.md"]);
    assert_eq!(count_plan_files(&files), 2);
}

// --- rows ---

#[test]
fn test_phase_row_from_roadmap() {
    let input = "### Phase 2: Dash\n**Goal**: See it\n**Depends on**: Phase 1, Phase 0\n**Requirements**: A-1\n**Plans**: 3 plans\n\nPlans:\n- [x] 02-01-PLAN.md -- one\n- [x] 02-02-PLAN.md -- two\n- [ ] 02-03-PLAN.md -- three\n";
    let data = parse_roadmap(input).unwrap();
    let row = phase_row(&data.phases[0]);
    assert_eq!(row.phase_number, "02");
    assert_eq!(row.phase_name, "Dash");
    assert_eq!(row.goal.as_deref(), Some("See it"));
    assert_eq!(row.depends_on.as_deref(), Some("Phase 1, Phase 0"));
    assert_eq!(row.requirements.as_deref(), Some("A-1"));
    assert_eq!(row.plan_count, 3);
    assert_eq!(row.completed_plan_count, 2);
}

#[test]
fn test_plan_row_from_plan() {
    let data = parse_plan_md("---\nwave: 2\ntype: tdd\nrequirements: [R1, R2]\n---\n").unwrap();
    let row = plan_row(&data);
    assert_eq!(row.wave, Some(2));
    assert_eq!(row.plan_type.as_deref(), Some("tdd"));
    assert_eq!(row.depends_on, None);
    assert_eq!(row.requirements.as_deref(), Some("R1, R2"));
    assert_eq!(row.files_modified, None);
}

#[test]
fn test_run_lists() {
    let (k, r) = run_lists(&strings(&["a", "b"]), &strings(&[]));
    assert_eq!(k.as_deref(), Some("a, b"));
    assert_eq!(r, None);
    let (k, _) = run_lists(&strings(&[""]), &strings(&["x"]));
    assert_eq!(k, None);
}

// --- notify event kinds ---

#[test]
fn test_map_event_kind_create() {
    assert_eq!(map_event_kind(&EventKind::Create(CreateKind::File)), Some(FileEventKind::Create));
    assert_eq!(map_event_kind(&EventKind::Create(CreateKind::Any)), Some(FileEventKind::Create));
}

#[test]
fn test_map_event_kind_modify() {
    assert_eq!(
        map_event_kind(&EventKind::Modify(ModifyKind::Data(DataChange::Any))),
        Some(FileEventKind::Modify)
    );
    assert_eq!(map_event_kind(&EventKind::Modify(ModifyKind::Any)), Some(FileEventKind::Modify));
}

#[test]
fn test_map_event_kind_remove() {
    assert_eq!(map_event_kind(&EventKind::Remove(RemoveKind::File)), Some(FileEventKind::Remove));
}

#[test]
fn test_map_event_kind_rename_to_is_create() {
    assert_eq!(
        map_event_kind(&EventKind::Modify(ModifyKind::Name(RenameMode::To))),
        Some(FileEventKind::Create)
    );
}

#[test]
fn test_map_event_kind_filters_metadata() {
    assert_eq!(map_event_kind(&EventKind::Modify(ModifyKind::Metadata(MetadataKind::Any))), None);
}

#[test]
fn test_map_event_kind_filters_access() {
    assert_eq!(map_event_kind(&EventKind::Access(AccessKind::Any)), None);
}

#[test]
fn test_map_event_kind_other_cases() {
    assert_eq!(map_event_kind(&EventKind::Create(CreateKind::Folder)), None);
    assert_eq!(map_event_kind(&EventKind::Remove(RemoveKind::Any)), Some(FileEventKind::Remove));
    assert_eq!(map_event_kind(&EventKind::Modify(ModifyKind::Name(RenameMode::From))), None);
    assert_eq!(map_event_kind(&EventKind::Any), None);
    assert!(should_process(FileEventKind::Modify));
    assert!(!should_process(FileEventKind::Remove));
}

// --- debouncing ---

#[test]
fn test_debouncer_single_event() {
    let mut pending = PendingEvents::new();
    let g = pending.record("project-1".to_string(), "/test/.planning/STATE.md".to_string(), FileEventKind::Modify);
    let ev = pending.fire("/test/.planning/STATE.md", g).unwrap();
    assert_eq!(ev.project_id, "project-1");
    assert_eq!(ev.path, "/test/.planning/STATE.md");
    assert_eq!(ev.kind, FileEventKind::Modify);
    assert!(pending.fire("/test/.planning/STATE.md", g).is_none());
}

#[test]
fn test_debouncer_batches_rapid_events_same_file() {
    let mut pending = PendingEvents::new();
    let path = "/test/.planning/ROADMAP.md";
    let g1 = pending.record("p".to_string(), path.to_string(), FileEventKind::Modify);
    let g2 = pending.record("p".to_string(), path.to_string(), FileEventKind::Modify);
    let g3 = pending.record("p".to_string(), path.to_string(), FileEventKind::Create);
    assert!(pending.fire(path, g1).is_none());
    assert!(pending.fire(path, g2).is_none());
    let ev = pending.fire(path, g3).unwrap();
    assert_eq!(ev.kind, FileEventKind::Create);
}

#[test]
fn test_debouncer_separate_events_different_files() {
    let mut pending = PendingEvents::new();
    let ga = pending.record("p".to_string(), "/a.md".to_string(), FileEventKind::Modify);
    let gb = pending.record("p".to_string(), "/b.md".to_string(), FileEventKind::Remove);
    assert_eq!(pending.fire("/b.md", gb).unwrap().kind, FileEventKind::Remove);
    assert_eq!(pending.fire("/a.md", ga).unwrap().path, "/a.md");
}

// --- client count ---

#[test]
fn test_broadcaster_unsubscribe_no_underflow() {
    assert_eq!(clients_after_unsubscribe(0), 0);
    assert_eq!(clients_after_unsubscribe(3), 2);
}

#[test]
fn test_broadcaster_subscribe_counts() {
    let c = clients_after_subscribe(0);
    assert_eq!(c, 1);
    assert_eq!(clients_after_unsubscribe(c), 0);
    assert_eq!(clients_after_subscribe(u32::MAX), 0);
}

// --- query text ---

fn run_filters(phase: Option<&str>, status: Option<&str>, to: Option<&str>) -> RunFilters {
    RunFilters {
        phase: phase.map(|s| s.to_string()),
        plan: None,
        status: status.map(|s| s.to_string()),
        from: None,
        to: to.map(|s| s.to_string()),
        limit: 50,
        offset: 0,
    }
}

#[test]
fn test_runs_sql() {
    let f = run_filters(Some("01"), None, Some("2026"));
    assert_eq!(run_conditions(&f), strings(&["project_id = ?1", "phase_number = ?2", "created_at <= ?3"]));
    assert_eq!(
        runs_count_sql(&f),
        "SELECT COUNT(*) FROM execution_runs WHERE project_id = ?1 AND phase_number = ?2 AND created_at <= ?3"
    );
    assert_eq!(
        runs_data_sql(&f),
        "SELECT * FROM execution_runs WHERE project_id = ?1 AND phase_number = ?2 AND created_at <= ?3 ORDER BY created_at DESC LIMIT ?4 OFFSET ?5"
    );
    assert_eq!(run_bind_values(&f), strings(&["01", "2026"]));
    let none = run_filters(None, None, None);
    assert_eq!(runs_data_sql(&none), "SELECT * FROM execution_runs WHERE project_id = ?1 ORDER BY created_at DESC LIMIT ?2 OFFSET ?3");
}

#[test]
fn test_sessions_sql() {
    let f = SessionFilters {
        agent_type: Some("executor".to_string()),
        phase: None,
        from: Some("2026-01-01".to_string()),
        to: None,
    };
    assert_eq!(
        sessions_sql(&f),
        "SELECT * FROM agent_sessions WHERE project_id = ?1 AND agent_type = ?2 AND started_at >= ?3 ORDER BY started_at"
    );
    assert_eq!(session_bind_values(&f), strings(&["executor", "2026-01-01"]));
}

#[test]
fn test_project_update_merge() {
    let p = Project {
        id: "id".to_string(),
        name: "Old".to_string(),
        path: "/p".to_string(),
        status: "active".to_string(),
        retention_days: None,
        created_at: "c".to_string(),
        last_seen_at: "l".to_string(),
    };
    assert_eq!(merged_project_update(&p, None, None), ("Old".to_string(), 180));
    assert_eq!(merged_project_update(&p, Some("New"), Some(30)), ("New".to_string(), 30));
    assert_eq!(retention_days_or_default(Some(7)), 7);
}

// --- REST helpers ---

#[test]
fn test_api_helpers() {
    assert!(has_traversal("../etc/passwd"));
    assert!(has_traversal("a/..b"));
    assert!(!has_traversal("phases/01/x.md"));
    assert_eq!(content_type_for("STATE.md"), "text/markdown; charset=utf-8");
    assert_eq!(content_type_for("config.json"), "application/json; charset=utf-8");
    assert_eq!(content_type_for("notes.txt"), "text/plain; charset=utf-8");
    assert_eq!(page_limit(None), 50);
    assert_eq!(page_limit(Some(500)), 200);
    assert_eq!(page_limit(Some(10)), 10);
    assert_eq!(page_offset(None), 0);
    assert_eq!(create_error_status("error: UNIQUE constraint failed: projects.path"), 409);
    assert_eq!(create_error_status("disk I/O error"), 500);
    assert_eq!(state_error_status("Project not found: x"), 404);
    assert_eq!(state_error_status("DB error: locked"), 500);
    assert_eq!(decode_request_path("phases%2F01%20x.md"), "phases/01 x.md");
    assert_eq!(decode_request_path("a%FFb"), "a%FFb");
    assert_eq!(decode_request_path("plain+name"), "plain+name");
}

// --- configuration ---

#[test]
fn test_default_config() {
    let config = DaemonConfig::from_values(None, None, None);
    assert_eq!(config.listen_addr, "0.0.0.0:3000");
    assert_eq!(config.database_url, "sqlite:data/gsdui.db?mode=rwc");
    assert_eq!(config.static_dir, "static");
}

#[test]
fn test_custom_config_from_env() {
    let config = DaemonConfig::from_values(
        Some("127.0.0.1:8080".to_string()),
        Some("sqlite:custom.db".to_string()),
        Some("/var/www/static".to_string()),
    );
    assert_eq!(config.listen_addr, "127.0.0.1:8080");
    assert_eq!(config.database_url, "sqlite:custom.db");
    assert_eq!(config.static_dir, "/var/www/static");
}

// --- WebSocket protocol ---

#[test]
fn test_subscribe_projects() {
    let ok = subscribe_projects(ClientMessage::Subscribe { projects: strings(&["p1", "p2"]) });
    assert_eq!(ok, Ok(strings(&["p1", "p2"])));
    let empty = subscribe_projects(ClientMessage::Subscribe { projects: vec![] });
    assert_eq!(empty, Err("Subscribe message must include at least one project".to_string()));
    let other = subscribe_projects(ClientMessage::Unsubscribe { projects: strings(&["p1"]) });
    assert_eq!(other, Err("First message must be a subscribe command".to_string()));
}

#[test]
fn test_memory_from_status() {
    let status = "Name:\tgsdui\nVmPeak:\t  2000 kB\nVmRSS:\t   12345 kB\nThreads:\t4\n";
    assert_eq!(memory_from_status(status), 12345 * 1024);
    assert_eq!(memory_from_status("Name: x\n"), 0);
    assert_eq!(memory_from_status("VmRSS: lots kB\nVmRSS: 2 kB"), 2048);
    assert_eq!(memory_from_status("VmRSS:"), 0);
}

// --- stored names ---

#[test]
fn test_status_names_roundtrip() {
    for s in [ProjectStatus::Active, ProjectStatus::Offline] {
        assert_eq!(ProjectStatus::from_str(&s.to_string()), Ok(s));
    }
    for s in [
        PhaseStage::Planned,
        PhaseStage::Discussed,
        PhaseStage::Researched,
        PhaseStage::PlannedReady,
        PhaseStage::Executing,
        PhaseStage::Executed,
        PhaseStage::Verified,
    ] {
        assert_eq!(PhaseStage::from_str(&s.to_string()), Ok(s));
    }
    for s in [PlanStatus::Pending, PlanStatus::Working, PlanStatus::Done, PlanStatus::Failed] {
        assert_eq!(PlanStatus::from_str(&s.to_string()), Ok(s));
    }
    for s in [VerificationStatus::Passed, VerificationStatus::GapsFound, VerificationStatus::HumanNeeded] {
        assert_eq!(VerificationStatus::from_str(&s.to_string()), Ok(s));
    }
    for s in [ParseErrorSeverity::Warning, ParseErrorSeverity::Error] {
        assert_eq!(ParseErrorSeverity::from_str(&s.to_string()), Ok(s));
    }
    assert_eq!(PhaseStage::from_str("PLANNED_READY"), Ok(PhaseStage::PlannedReady));
    assert_eq!(PlanStatus::from_str("Nope"), Err("Unknown plan status: nope".to_string()));
}

#[test]
fn test_map_event_kind_filters_folders_and_other_renames() {
    assert_eq!(map_event_kind(&EventKind::Create(CreateKind::Folder)), None);
    assert_eq!(map_event_kind(&EventKind::Remove(RemoveKind::Folder)), None);
    assert_eq!(map_event_kind(&EventKind::Modify(ModifyKind::Name(RenameMode::From))), None);
    assert_eq!(map_event_kind(&EventKind::Remove(RemoveKind::Any)), Some(FileEventKind::Remove));
    assert_eq!(map_event_kind(&EventKind::Any), None);
    assert_eq!(map_event_kind(&EventKind::Other), None);
}
