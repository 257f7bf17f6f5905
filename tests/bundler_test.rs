use terrarium::bundler::{
    cache_dir, cache_dir_in, choose_runtime, classify_outcome, classify_output, direct_candidates,
    first_run_marker, install_marker, is_supported_major, runtime_in, runtime_major,
    search_path_with, shell_lookup_result, version_roots, InvocationResult, LocateError,
    ProcessOutcome, STRUCTURED_ERROR_PREFIX,
};
use terrarium::session::Candidate;

fn cand(path: &str, exists: bool) -> Candidate {
    Candidate { path: path.to_string(), exists }
}

#[test]
fn parse_bundler_output_success() {
    let output = "console.log('hello');";
    assert!(!output.starts_with(STRUCTURED_ERROR_PREFIX));
    match classify_output(true, output.to_string(), String::new()) {
        InvocationResult::Success(p) => assert_eq!(p, output),
        _ => panic!("expected success"),
    }
}

#[test]
fn parse_bundler_output_error() {
    let output = r#"{"error":true,"message":"Failed to resolve"}"#;
    assert!(output.starts_with(STRUCTURED_ERROR_PREFIX));
    match classify_output(true, output.to_string(), String::new()) {
        InvocationResult::StructuredError(p) => assert_eq!(p, output),
        _ => panic!("expected structured error"),
    }
}

#[test]
fn classify_failure_with_plain_output_is_process_error() {
    match classify_output(false, "partial".to_string(), "boom\n".to_string()) {
        InvocationResult::ProcessError(m) => assert_eq!(m, "boom\n"),
        _ => panic!("expected process error"),
    }
}

#[test]
fn classify_failure_with_json_output_is_structured() {
    match classify_output(false, r#"{"message":"x"}"#.to_string(), "e".to_string()) {
        InvocationResult::StructuredError(p) => assert_eq!(p, r#"{"message":"x"}"#),
        _ => panic!("expected structured error"),
    }
    // With a clean exit, a brace alone is an artifact.
    assert!(matches!(
        classify_output(true, r#"{"message":"x"}"#.to_string(), String::new()),
        InvocationResult::Success(_)
    ));
}

#[test]
fn classify_outcome_timeout_and_launch_failure() {
    assert!(matches!(classify_outcome(ProcessOutcome::TimedOut), InvocationResult::Timeout));
    match classify_outcome(ProcessOutcome::LaunchFailed("no such file".to_string())) {
        InvocationResult::LaunchFailed(m) => assert_eq!(m, "no such file"),
        _ => panic!("expected launch failure"),
    }
    let done = ProcessOutcome::Finished {
        success: true,
        stdout: "out".to_string(),
        stderr: String::new(),
    };
    assert!(matches!(classify_outcome(done), InvocationResult::Success(p) if p == "out"));
}

#[test]
fn result_texts() {
    assert_eq!(InvocationResult::Success("a".to_string()).into_text(), Ok("a".to_string()));
    assert_eq!(
        InvocationResult::ProcessError("oops".to_string()).into_text(),
        Err("Bundler failed:\noops".to_string())
    );
    assert_eq!(
        InvocationResult::Timeout.into_text(),
        Err("Bundler timed out after 120 seconds".to_string())
    );
    assert_eq!(
        InvocationResult::StructuredError("{}".to_string()).into_text(),
        Err("{}".to_string())
    );
    assert_eq!(
        InvocationResult::LaunchFailed("no such file".to_string()).into_text(),
        Err("Failed to run bundler: no such file".to_string())
    );
    assert_eq!(
        LocateError::RuntimeNotFound.message(),
        "Node.js not found. Install it from https://nodejs.org"
    );
}

#[test]
fn runtime_precedence() {
    let direct = vec![cand("/a/node", false), cand("/b/node", true)];
    let managed = vec![Some("/m/node".to_string())];
    assert_eq!(choose_runtime(&direct, &managed, Some("/s/node".to_string())).ok(), Some("/b/node".to_string()));
    let direct = vec![cand("/a/node", false)];
    let managed = vec![None, Some("/m2/node".to_string())];
    assert_eq!(choose_runtime(&direct, &managed, Some("/s/node".to_string())).ok(), Some("/m2/node".to_string()));
    assert_eq!(choose_runtime(&direct, &vec![None], Some("/s/node".to_string())).ok(), Some("/s/node".to_string()));
    assert!(matches!(choose_runtime(&direct, &vec![None], None), Err(LocateError::RuntimeNotFound)));
}

#[test]
fn runtime_locations() {
    let d = direct_candidates("/home/u");
    assert_eq!(d, vec!["/opt/homebrew/bin/node", "/usr/local/bin/node", "/home/u/.volta/bin/node"]);
    let r = version_roots("/home/u");
    assert_eq!(r[0], "/home/u/.nvm/versions/node");
    assert_eq!(r[1], "/home/u/Library/Application Support/fnm/node-versions");
    assert_eq!(r[2], "/home/u/.asdf/installs/nodejs");
    assert_eq!(runtime_in("/home/u/.nvm/versions/node", "v18.0.0"), "/home/u/.nvm/versions/node/v18.0.0/bin/node");
}

#[test]
fn search_path_prepends_runtime_dir() {
    assert_eq!(
        search_path_with("/usr/local/bin/node", Some("/usr/bin:/bin".to_string())),
        "/usr/local/bin:/usr/bin:/bin"
    );
    assert_eq!(search_path_with("/opt/n/bin/node", None), "/opt/n/bin:/usr/bin:/bin");
}

#[test]
fn shell_lookup_trims_output() {
    assert_eq!(shell_lookup_result(true, "  /usr/bin/node\n"), Some("/usr/bin/node".to_string()));
    assert_eq!(shell_lookup_result(true, " \n"), None);
    assert_eq!(shell_lookup_result(false, "/usr/bin/node\n"), None);
    assert_eq!(
        shell_lookup_result(true, "\u{a0}\t/opt/node\u{3000}\r\n"),
        Some("/opt/node".to_string())
    );
}

#[test]
fn cache_dir_is_under_home() {
    let dir = cache_dir();
    assert!(dir.contains(".terrarium"));
    assert!(dir.starts_with('/'));
    assert_eq!(cache_dir_in(Some("/home/u")), "/home/u/.terrarium");
    assert_eq!(cache_dir_in(None), "/tmp/.terrarium");
}

#[test]
fn marker_paths() {
    assert_eq!(install_marker("/c"), "/c/node_modules/react");
    assert_eq!(first_run_marker("/c"), "/c/first-run-complete");
}

#[test]
fn runtime_major_versions() {
    assert_eq!(runtime_major("v20.11.1"), 20);
    assert_eq!(runtime_major("18"), 18);
    assert_eq!(runtime_major("vx.1"), 0);
    assert_eq!(runtime_major(""), 0);
    assert_eq!(runtime_major("v99999999999.0"), 0);
    assert!(is_supported_major(18));
    assert!(!is_supported_major(16));
}
