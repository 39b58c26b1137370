use knowledge_observer::observer::agent::{
    build_create_input, build_resume_input, build_reseed_input, judge_run, new_observer_sid,
    run_environment, should_reseed, RunEnd, OBS_MAX_TURNS, SEC_DAG, SEC_DELTA, SEC_PROMPT, SEC_SUMMARY,
};
use knowledge_observer::observer::contract;

#[test]
fn create_input_contains_prompt_delta_and_excerpt_with_labels() {
    let prompt = contract::EXTRACTION_PROMPT;
    let input = build_create_input(prompt, "USER: hi\nAGENT: hello", "node-1: SQLite chosen");
    // Full prompt leads.
    assert!(input.contains("You are observing"));
    assert!(input.contains(prompt));
    // Delta + excerpt present.
    assert!(input.contains("USER: hi"));
    assert!(input.contains("node-1: SQLite chosen"));
    // Sections are labeled.
    assert!(input.contains(SEC_PROMPT));
    assert!(input.contains(SEC_DAG));
    assert!(input.contains(SEC_DELTA));
}

#[test]
fn resume_input_omits_full_prompt_but_keeps_delta_and_excerpt() {
    let input = build_resume_input("USER: next\nAGENT: ok", "node-2: WAL mode");
    assert!(!input.contains("You are observing"));
    assert!(!input.contains(SEC_PROMPT));
    assert!(input.contains("USER: next"));
    assert!(input.contains("node-2: WAL mode"));
    assert!(input.contains(SEC_DELTA));
    assert!(input.contains(SEC_DAG));
}

#[test]
fn reseed_input_carries_summary_and_prompt() {
    let prompt = contract::EXTRACTION_PROMPT;
    let input = build_reseed_input(prompt, "So far: DB + terminal set up.", "node-3: x");
    assert!(input.contains(prompt));
    assert!(input.contains("You are observing"));
    assert!(input.contains("So far: DB + terminal set up."));
    assert!(input.contains("node-3: x"));
    assert!(input.contains(SEC_SUMMARY));
    assert!(input.contains(SEC_PROMPT));
    // A re-seed leads with the summary, not raw delta turns.
    assert!(!input.contains(SEC_DELTA));
}

#[test]
fn should_reseed_boundary() {
    assert!(!should_reseed(0, OBS_MAX_TURNS));
    assert!(!should_reseed(OBS_MAX_TURNS - 1, OBS_MAX_TURNS));
    assert!(should_reseed(OBS_MAX_TURNS, OBS_MAX_TURNS));
    assert!(should_reseed(OBS_MAX_TURNS + 1, OBS_MAX_TURNS));
}

#[test]
fn new_observer_sid_is_valid_uuid() {
    let sid = new_observer_sid();
    assert!(uuid::Uuid::parse_str(&sid).is_ok());
    assert_ne!(new_observer_sid(), new_observer_sid());
}

fn exited(success: bool, stdout: &str) -> RunEnd {
    RunEnd::Exited {
        success,
        code: "Some(1)".into(),
        stdout: stdout.into(),
        stderr: " oops\n".into(),
    }
}

#[test]
fn only_a_run_that_ends_well_and_writes_counts() {
    for written in [" {} \n", " \n"] {
        assert_eq!(judge_run("host", exited(true, written)), Ok(written.to_string()));
    }
    let failed = |end: RunEnd| judge_run("host", end).unwrap_err();
    assert_eq!(failed(exited(true, "")), "host wrote nothing");
    assert_eq!(
        failed(exited(false, "half\n")),
        "host exited with failure (code Some(1)); stderr: oops; stdout: half"
    );
    assert_eq!(failed(RunEnd::NotStarted("no such file".into())), "spawn host: no such file");
    assert_eq!(failed(RunEnd::TimedOut), "ephemeral Host timed out");
    assert_eq!(judge_run("7z", RunEnd::TimedOut).unwrap_err(), "ephemeral 7z timed out");
    assert_eq!(failed(RunEnd::Lost("gone".into())), "wait on host: gone");
}

#[test]
fn a_run_is_marked_and_knows_no_outer_session() {
    let (set, removed) = run_environment();
    assert_eq!(set, vec![("KNOWLEDGE_OBSERVER_INTERNAL".to_string(), "1".to_string())]);
    assert_eq!(removed, vec!["CLAUDECODE", "CLAUDE_CODE_ENTRYPOINT", "CLAUDE_CODE_SESSION"]);
}
