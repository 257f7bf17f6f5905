use terrarium::session::{check_open_path, plan_new_sessions, AppState, Candidate, OpenError};
use terrarium::text::has_source_extension;

fn cand(path: &str, exists: bool) -> Candidate {
    Candidate { path: path.to_string(), exists }
}

#[test]
fn app_state_initializes_empty() {
    let state: AppState<u32> = AppState::new();
    assert!(state.is_empty());
}

#[test]
fn app_state_stores_window_state() {
    let mut state: AppState<u32> = AppState::new();
    let prev = state.register("main".to_string(), "/tmp/test.tsx".to_string(), None);
    assert!(prev.is_none());
    assert_eq!(state.file_of("main"), Some("/tmp/test.tsx".to_string()));
}

#[test]
fn next_window_id_increments() {
    let mut state: AppState<u32> = AppState::new();
    assert_eq!(state.allocate_id(), Some(2));
    assert_eq!(state.allocate_id(), Some(3));
}

#[test]
fn next_label_generates_sequential_labels() {
    let mut state: AppState<u32> = AppState::new();
    assert_eq!(state.next_label().unwrap(), "window-2");
    assert_eq!(state.next_label().unwrap(), "window-3");
    assert_eq!(state.next_label().unwrap(), "window-4");
}

#[test]
fn register_replaces_and_hands_back_subscription() {
    let mut state: AppState<u32> = AppState::new();
    state.register("w".to_string(), "/tmp/a.tsx".to_string(), Some(7));
    let prev = state.register("w".to_string(), "/tmp/b.tsx".to_string(), Some(8)).unwrap();
    assert_eq!(prev.file, "/tmp/a.tsx");
    assert_eq!(prev.watcher, Some(7));
    assert_eq!(state.file_of("w"), Some("/tmp/b.tsx".to_string()));
    assert!(state.is_open("/tmp/b.tsx"));
    assert!(!state.is_open("/tmp/a.tsx"));
}

#[test]
fn remove_releases_session() {
    let mut state: AppState<u32> = AppState::new();
    state.register("w".to_string(), "/tmp/a.tsx".to_string(), Some(1));
    let gone = state.remove("w").unwrap();
    assert_eq!(gone.watcher, Some(1));
    assert!(state.remove("w").is_none());
    assert_eq!(state.file_of("w"), None);
    assert!(state.is_empty());
}

#[test]
fn attach_watcher_only_to_live_sessions() {
    let mut state: AppState<u32> = AppState::new();
    state.register("w".to_string(), "/tmp/a.tsx".to_string(), None);
    assert!(state.attach_watcher("w", 5));
    assert!(!state.attach_watcher("gone", 6));
    assert!(state.contains("w"));
    assert!(!state.contains("gone"));
    let s = state.remove("w").unwrap();
    assert_eq!(s.watcher, Some(5));
    assert_eq!(s.file, "/tmp/a.tsx");
}

#[test]
fn extension_filtering_ignores_case() {
    assert!(has_source_extension("FILE.TSX"));
    assert!(has_source_extension("file.Tsx"));
    assert!(!has_source_extension("file.ts"));
    assert!(has_source_extension("/tmp/App.TSX"));
    assert!(!has_source_extension("/tmp/readme.md"));
    assert!(!has_source_extension("/tmp/.tsx"));
    assert!(!has_source_extension("/tmp/x.tsx/"));
    assert!(!has_source_extension("/tmp/a.tsxx"));
}

#[test]
fn tsx_paths_from_urls_handles_empty_input() {
    let state: AppState<u32> = AppState::new();
    let plan = state.plan_open(&Vec::new(), "main");
    assert!(plan.primary.is_none());
    assert!(plan.others.is_empty());
}

#[test]
fn plan_claims_free_primary_then_new_sessions() {
    let state: AppState<u32> = AppState::new();
    let c = vec![
        cand("/tmp/hello.tsx", true),
        cand("/tmp/readme.md", true),
        cand("/tmp/missing.tsx", false),
        cand("/tmp/App.TSX", true),
        cand("/tmp/hello.tsx", true),
    ];
    let plan = state.plan_open(&c, "main");
    assert_eq!(plan.primary, Some("/tmp/hello.tsx".to_string()));
    assert_eq!(plan.others, vec!["/tmp/App.TSX".to_string()]);
}

#[test]
fn plan_skips_open_files_when_primary_taken() {
    let mut state: AppState<u32> = AppState::new();
    state.register("main".to_string(), "/tmp/a.tsx".to_string(), None);
    let c = vec![cand("/tmp/a.tsx", true), cand("/tmp/b.tsx", true), cand("/tmp/b.tsx", true)];
    let plan = state.plan_open(&c, "main");
    assert!(plan.primary.is_none());
    assert_eq!(plan.others, vec!["/tmp/b.tsx".to_string()]);
}

#[test]
fn open_validation_errors() {
    match check_open_path("/tmp/missing.tsx", false) {
        Err(OpenError::FileNotFound(p)) => assert_eq!(p, "/tmp/missing.tsx"),
        _ => panic!("expected file not found"),
    }
    match check_open_path("/tmp/notes.md", true) {
        Err(e) => assert_eq!(e.message(), "Not a TSX file: /tmp/notes.md"),
        _ => panic!("expected not a source file"),
    }
    assert!(check_open_path("/tmp/a.tsx", true).is_ok());
    assert_eq!(
        OpenError::FileNotFound("/x.tsx".to_string()).message(),
        "File not found: /x.tsx"
    );
}

#[test]
fn validate_missing_file_before_invocation() {
    match terrarium::session::validate_open_path("/tmp/__terrarium_missing_file_424242.tsx") {
        Err(OpenError::FileNotFound(_)) => {}
        _ => panic!("expected file not found"),
    }
}

#[test]
fn pick_into_empty_window_takes_first_as_picked() {
    let state: AppState<u32> = AppState::new();
    let picked = vec![
        cand("/tmp/notes.md", true),
        cand("/tmp/a.tsx", true),
        cand("/tmp/gone.tsx", false),
        cand("/tmp/B.TSX", true),
    ];
    let plan = state.plan_pick(&picked, "main");
    assert_eq!(plan.primary, Some("/tmp/notes.md".to_string()));
    assert_eq!(plan.others, vec!["/tmp/a.tsx".to_string(), "/tmp/B.TSX".to_string()]);
}

#[test]
fn pick_from_busy_window_opens_all_in_new_sessions() {
    let mut state: AppState<u32> = AppState::new();
    state.register("main".to_string(), "/tmp/a.tsx".to_string(), None);
    let picked = vec![cand("/tmp/a.tsx", true), cand("/tmp/b.tsx", true)];
    let plan = state.plan_pick(&picked, "main");
    assert!(plan.primary.is_none());
    assert_eq!(plan.others, vec!["/tmp/a.tsx".to_string(), "/tmp/b.tsx".to_string()]);
    let empty = state.plan_pick(&Vec::new(), "other");
    assert!(empty.primary.is_none() && empty.others.is_empty());
}

#[test]
fn dropped_paths_each_get_a_session() {
    let c = vec![
        cand("/tmp/a.tsx", true),
        cand("/tmp/a.tsx", true),
        cand("/tmp/readme.md", true),
        cand("/tmp/x.tsx", false),
    ];
    assert_eq!(plan_new_sessions(&c), vec!["/tmp/a.tsx".to_string(), "/tmp/a.tsx".to_string()]);
}
