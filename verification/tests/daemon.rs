use knowledge_observer::config::EnvLayer;
use knowledge_observer::ipc::{IpcRequest, Reply};
use knowledge_observer::json::parse_json;
use knowledge_observer::observer::agent::{
    run_extraction, OBS_MAX_TURNS, SEC_DAG, SEC_DELTA, SEC_PROMPT, SEC_SUMMARY,
};
use knowledge_observer::observer::contract::EXTRACTION_PROMPT;
use knowledge_observer::observer::daemon::{
    after_idle, after_run, decide_turn_mode, end_run, go_on, handle_request, has_turns, is_existing_daemon_live,
    is_throttled, knowledge_dir_for, make_task, parse_trigger_input, plan_turn, read_turns,
    resolve_trigger_project_dir, resolve_trigger_session_id, should_idle_shutdown, DaemonStep,
    InFlight, PassStep, PortFile, TriggerInput, TurnMode, IDLE_DAEMON_SECS,
};
use knowledge_observer::observer::tail::INJECTED_MARKER;
use knowledge_observer::store::model::KnowledgeGraph;
use knowledge_observer::store::observer_state::ObserverState;

fn req(op: &str, payload: &str) -> IpcRequest {
    IpcRequest {
        token: "t".into(),
        project_dir: "".into(),
        op: op.into(),
        payload: parse_json(payload).unwrap(),
        session_id: "".into(),
    }
}

#[test]
fn idle_shutdown_decision() {
    assert!(!should_idle_shutdown(1000, 1000 + IDLE_DAEMON_SECS - 1, IDLE_DAEMON_SECS));
    assert!(should_idle_shutdown(1000, 1000 + IDLE_DAEMON_SECS, IDLE_DAEMON_SECS));
    assert!(should_idle_shutdown(1000, 1000 + IDLE_DAEMON_SECS + 5, IDLE_DAEMON_SECS));
    // Clock skew (now < last) must not underflow into a shutdown.
    assert!(!should_idle_shutdown(2000, 1000, IDLE_DAEMON_SECS));
}

#[test]
fn decide_turn_mode_create_resume_reseed() {
    let s0 = ObserverState::default();
    assert_eq!(decide_turn_mode(&s0), TurnMode::Create);

    let s1 = ObserverState {
        observer_sid: "obs-1".into(),
        turn_count: OBS_MAX_TURNS - 1,
        ..Default::default()
    };
    assert_eq!(decide_turn_mode(&s1), TurnMode::Resume);

    let s2 = ObserverState {
        observer_sid: "obs-1".into(),
        turn_count: OBS_MAX_TURNS,
        ..Default::default()
    };
    assert_eq!(decide_turn_mode(&s2), TurnMode::Reseed);
    let s3 = ObserverState {
        observer_sid: "obs-1".into(),
        turn_count: OBS_MAX_TURNS + 5,
        ..Default::default()
    };
    assert_eq!(decide_turn_mode(&s3), TurnMode::Reseed);
}

#[test]
fn trigger_parse_extracts_fields() {
    let raw = r#"{"session_id":"s-1","transcript_path":"C:/p/work.jsonl","cwd":"C:/p","extra":1}"#;
    let t = parse_trigger_input(raw);
    assert_eq!(t.session_id.as_deref(), Some("s-1"));
    assert_eq!(t.transcript_path.as_deref(), Some("C:/p/work.jsonl"));
    assert_eq!(t.cwd.as_deref(), Some("C:/p"));
}

#[test]
fn trigger_parse_blank_and_malformed_are_none() {
    let t = parse_trigger_input(r#"{"session_id":"  ","transcript_path":""}"#);
    assert_eq!(t, TriggerInput::default());
    assert_eq!(parse_trigger_input("not json at all"), TriggerInput::default());
    assert_eq!(parse_trigger_input(""), TriggerInput::default());
}

#[test]
fn trigger_session_id_env_over_stdin() {
    let input = TriggerInput { session_id: Some("from-stdin".into()), ..Default::default() };
    assert_eq!(resolve_trigger_session_id(&input, Some("from-env")), "from-env");
    assert_eq!(resolve_trigger_session_id(&input, Some("   ")), "from-stdin");
    assert_eq!(resolve_trigger_session_id(&input, None), "from-stdin");
    assert_eq!(resolve_trigger_session_id(&TriggerInput::default(), None), "");
}

#[test]
fn trigger_missing_transcript_is_noop() {
    let input = TriggerInput { session_id: Some("s".into()), ..Default::default() };
    assert!(input.transcript_path.is_none(), "no transcript → run_trigger_subcommand exits early");
}

#[test]
fn in_flight_guard_coalesces_same_session_not_others() {
    let mut guard = InFlight::default();
    let s = "sess-guard-1";
    let other = "sess-other-1";
    assert!(guard.try_begin_pass(s));
    assert!(!guard.try_begin_pass(s));
    assert!(guard.try_begin_pass(other));
    guard.end_pass(s);
    assert!(guard.try_begin_pass(s));
    guard.end_pass(s);
    guard.end_pass(other);
}

#[test]
fn trigger_project_dir_prefers_stdin_cwd() {
    // stdin cwd wins over everything (it is the most specific).
    let input = TriggerInput { cwd: Some("C:/from-stdin".into()), ..Default::default() };
    assert_eq!(
        resolve_trigger_project_dir(&input, Some("C:/a".into()), Some("C:/b".into()), Some("C:/c".into())),
        "C:/from-stdin"
    );
}

#[test]
fn knowledge_dir_for_default_is_below_the_host_directory() {
    let kd = knowledge_dir_for("host", &EnvLayer::default(), None, "/tmp/project");
    assert_eq!(kd, "/tmp/project/.host/knowledge");
    let file = r#"{ "knowledge_dir": "/var/k" }"#;
    assert_eq!(knowledge_dir_for("host", &EnvLayer::default(), Some(file), "/tmp/project"), "/var/k");
}

#[test]
fn spawn_race_loser_when_live_port_file_present() {
    let pf = PortFile { port: 1, token: "t".into(), pid: 1, since: 0 };
    assert!(is_existing_daemon_live(Some(&pf), true));
    assert!(!is_existing_daemon_live(Some(&pf), false));
}

#[test]
fn spawn_race_no_port_file_is_not_loser() {
    assert!(!is_existing_daemon_live(None, true));
}

#[test]
fn daemon_health_roundtrip() {
    match handle_request(&req("health", "{}"), "/served", 42, &mut InFlight::default()) {
        DaemonStep::Reply(resp) => {
            assert!(resp.ok, "health should be ok: {resp:?}");
            assert!(matches!(resp.data, Reply::Health { since: 42 }));
        }
        other => panic!("{other:?}"),
    }
}

#[test]
fn daemon_hint_pop_names_the_session() {
    let mut f = InFlight::default();
    match handle_request(&req("hint_pop", r#"{ "session_id": "sess-9" }"#), "/served", 0, &mut f) {
        DaemonStep::PopHint { session_id } => assert_eq!(session_id, "sess-9"),
        other => panic!("{other:?}"),
    }
    let mut r = req("hint_pop", "{}");
    r.session_id = "own".into();
    match handle_request(&r, "/served", 0, &mut f) {
        DaemonStep::PopHint { session_id } => assert_eq!(session_id, "own"),
        other => panic!("{other:?}"),
    }
}

#[test]
fn daemon_trigger_acked_and_spawns_pass() {
    let mut f = InFlight::default();
    let r = req("trigger", r#"{ "session_id": "s1", "transcript_path": "C:/t/does-not-exist.jsonl" }"#);
    match handle_request(&r, "/served", 0, &mut f) {
        DaemonStep::StartPass { session_id, transcript, reply } => {
            assert!(reply.ok && matches!(reply.data, Reply::Accepted { skipped: false }));
            assert_eq!(session_id, "s1");
            assert_eq!(transcript, "C:/t/does-not-exist.jsonl");
        }
        other => panic!("{other:?}"),
    }
    // While that pass runs, another trigger of the session is skipped.
    match handle_request(&r, "/served", 0, &mut f) {
        DaemonStep::Reply(resp) => assert!(matches!(resp.data, Reply::Accepted { skipped: true })),
        other => panic!("{other:?}"),
    }
    f.end_pass("s1");
    assert!(matches!(handle_request(&r, "/served", 0, &mut f), DaemonStep::StartPass { .. }));
}

#[test]
fn daemon_trigger_missing_fields_errors() {
    let mut f = InFlight::default();
    match handle_request(&req("trigger", r#"{ "session_id": "s1" }"#), "/served", 0, &mut f) {
        DaemonStep::Reply(resp) => {
            assert!(!resp.ok);
            assert_eq!(resp.error.unwrap(), "trigger requires session_id and transcript_path");
        }
        other => panic!("{other:?}"),
    }
    assert!(f.try_begin_pass("s1"));
}

#[test]
fn daemon_subscribe_acks_without_blocking() {
    match handle_request(&req("subscribe", "{}"), "/served", 0, &mut InFlight::default()) {
        DaemonStep::Reply(resp) => assert!(resp.ok && matches!(resp.data, Reply::NotSubscribed)),
        other => panic!("{other:?}"),
    }
}

#[test]
fn daemon_routes_store_ops_through_dispatch_store() {
    for op in ["record", "current_state", "bogus"] {
        match handle_request(&req(op, "{}"), "/served", 0, &mut InFlight::default()) {
            DaemonStep::Store { req } => assert_eq!((req.op.as_str(), req.project_dir.as_str()), (op, "/served")),
            other => panic!("{other:?}"),
        }
    }
}

#[test]
fn only_the_served_project_counts() {
    for op in ["health", "hint_pop", "trigger", "subscribe", "record"] {
        let payload = r#"{ "session_id": "s", "transcript_path": "t.jsonl" }"#;
        let here = req(op, payload);
        let mut there = req(op, payload);
        there.project_dir = "/other".into();
        let a = handle_request(&here, "/served", 7, &mut InFlight::default());
        let b = handle_request(&there, "/served", 7, &mut InFlight::default());
        assert_eq!(format!("{a:?}"), format!("{b:?}"));
    }
}

const USER: &str = r#"{"type":"user","message":{"role":"user","content":"Use WAL"}}"#;

#[test]
fn turns_are_read_from_the_watermark_on() {
    let buf = format!("{USER}\n{{\"type\":\"assistant\",\"message\":{{\"content\":\"Done\"}}}}\nhalf a li");
    let start = ObserverState::default();
    let t = read_turns(&start, buf.as_bytes(), "stem");
    assert_eq!(t.watermark as usize, buf.len() - "half a li".len());
    assert!(t.delta.contains("User: Use WAL") && t.delta.contains("Assistant: Done"), "{}", t.delta);
    assert!(has_turns(&t));
    let later = after_idle(&start, "stem", t.watermark);
    assert_eq!(later.jsonl_stem, "stem");
    let none = read_turns(&later, buf.as_bytes(), "stem");
    assert_eq!(none.watermark, t.watermark);
    assert!(!has_turns(&none));
    // A new transcript is read from its start.
    assert!(has_turns(&read_turns(&later, buf.as_bytes(), "other")));
}

#[test]
fn injected_lines_are_not_observed() {
    let buf = format!(
        "{{\"type\":\"user\",\"message\":{{\"content\":\"{} secret\"}}}}\n{USER}\n",
        INJECTED_MARKER
    );
    let t = read_turns(&ObserverState::default(), buf.as_bytes(), "s");
    assert!(!t.delta.contains("secret"), "{}", t.delta);
    assert!(t.delta.contains("Use WAL"));
}

#[test]
fn the_plan_follows_the_turn_mode() {
    let fresh = ObserverState::default();
    let create = plan_turn(&fresh, "TASK-TEXT", "DELTA", "DAG", "new-sid");
    assert_eq!((create.observer_sid.as_str(), create.turn_count, create.is_first), ("new-sid", 1, true));
    assert!(create.input.contains(SEC_PROMPT) && create.input.contains("TASK-TEXT") && create.input.contains("DELTA") && create.input.contains("DAG"));

    let running = after_run(&fresh, "stem", 10, &create, Some("arc"), 99);
    assert_eq!(running.observer_sid, "new-sid");
    assert_eq!(running.watermark, 10);
    assert_eq!(running.rolling_summary, "arc");
    assert_eq!(running.last_run_at, 99);
    let resume = plan_turn(&running, "TASK-TEXT", "D2", "G2", "unused");
    assert_eq!((resume.observer_sid.as_str(), resume.turn_count, resume.is_first), ("new-sid", 2, false));
    assert!(!resume.input.contains(SEC_PROMPT) && !resume.input.contains("TASK-TEXT"));
    assert!(resume.input.contains(SEC_DELTA) && resume.input.contains(SEC_DAG));

    let worn = ObserverState { turn_count: OBS_MAX_TURNS, ..running };
    let reseed = plan_turn(&worn, "TASK-TEXT", "D3", "G3", "next-sid");
    assert_eq!((reseed.observer_sid.as_str(), reseed.turn_count, reseed.is_first), ("next-sid", 1, true));
    assert!(reseed.input.contains(SEC_SUMMARY) && reseed.input.contains("arc"));
    assert!(!reseed.input.contains("D3"), "the summary stands for the turns");
}

#[test]
fn a_pass_without_news_rests() {
    let start = ObserverState { rolling_summary: "arc".into(), ..Default::default() };
    match go_on(&start, b"{\"type\":\"user\",\"message\":{\"content\":\" \"}}\n", "stem") {
        PassStep::Rest { state } => {
            assert_eq!(state.watermark, 42);
            assert_eq!(state.jsonl_stem, "stem");
            assert_eq!(state.rolling_summary, "arc");
        }
        other => panic!("{other:?}"),
    }
    let buf = format!("{USER}\n");
    assert!(matches!(
        go_on(&start, buf.as_bytes(), "stem"),
        PassStep::Observe { turns } if turns.delta == "User: Use WAL\n\n"
    ));
}

#[test]
fn a_pass_ends_with_what_the_observer_said() {
    let start = ObserverState { rolling_summary: "old".into(), ..Default::default() };
    let plan = plan_turn(&start, "T", "D", "G", "sid");
    let answer = r#"```json
{ "ops": [ { "action": "add", "typ": "fact", "inhalt": "WAL", "begruendung": "said", "quellen": ["k.md", "x.md"] },
           { "action": "noop" } ], "rolling_summary": "new", "hint": " see WAL " }
```"#;
    let mut g = KnowledgeGraph::default();
    let known = vec!["k.md".to_string()];
    let end = end_run(&start, "st", 9, &plan, Some(answer), &mut g, "/p", "s1", true, &known, 50);
    assert!(end.ok);
    assert_eq!(end.ops, 1);
    assert_eq!(end.hint, "see WAL");
    assert_eq!(end.state.rolling_summary, "new");
    assert_eq!((end.state.watermark, end.state.turn_count, end.state.last_run_at), (9, 1, 50));
    assert_eq!(g.nodes[0].quelle_ids, vec!["k.md"]);
    assert_eq!(g.nodes[0].session_id.as_deref(), Some("s1"));

    let failed = end_run(&start, "st", 9, &plan, None, &mut g, "/p", "s1", true, &known, 51);
    assert!(!failed.ok && failed.ops == 0 && failed.hint.is_empty());
    assert_eq!(failed.state.rolling_summary, "old");
    assert_eq!(failed.state.observer_sid, "sid");
    assert_eq!(g.nodes.len(), 1);
}

#[test]
fn the_task_can_be_extended_or_replaced() {
    assert_eq!(make_task(None, None), EXTRACTION_PROMPT);
    assert_eq!(
        make_task(None, Some("Record API contracts verbatim.")),
        format!("{EXTRACTION_PROMPT}\n\nRecord API contracts verbatim.")
    );
    assert_eq!(make_task(Some("own"), None), "own");
    assert_eq!(make_task(Some("own"), Some("more")), "own\n\nmore");
}

#[test]
fn a_failed_run_keeps_the_summary() {
    let state = ObserverState { rolling_summary: "old".into(), ..Default::default() };
    let plan = plan_turn(&state, "T", "D", "G", "sid");
    assert_eq!(after_run(&state, "s", 5, &plan, None, 7).rolling_summary, "old");
}

#[test]
fn runs_of_a_session_are_spaced() {
    let never = ObserverState::default();
    assert!(!is_throttled(&never, 1_700_000_000, 45));
    let ran = ObserverState { last_run_at: 100, ..Default::default() };
    assert!(is_throttled(&ran, 144, 45));
    assert!(!is_throttled(&ran, 145, 45));
    assert!(!is_throttled(&ran, 145, 0));
}

#[test]
fn the_agent_is_started_or_resumed() {
    let first = run_extraction("/p", "sid-1", true, "input");
    assert_eq!(first.working_directory, "/p");
    assert_eq!(first.args, vec!["--session-id", "sid-1", "--setting-sources", "user"]);
    assert_eq!(first.stdin, "input\n");
    let next = run_extraction("/p", "sid-1", false, "");
    assert_eq!(next.args[0], "--resume");
}
