use knowledge_observer::cli::{
    build_hint_envelope, build_index_envelope, build_index_text, envelope, hook_should_bail,
    resolve_project_dir, resolve_session_id,
};
use knowledge_observer::config::Config;
use knowledge_observer::score::Score;
use knowledge_observer::store::model::{Frage, KnowledgeGraph, Node, NodeType};
use knowledge_observer::store::observer_hint::{append, take};
use serde_json::Value;

fn enabled_cfg() -> Config {
    Config::defaults("host") // enabled = true by default
}

fn disabled_cfg() -> Config {
    let mut c = Config::defaults("host");
    c.enabled = false;
    c
}

fn decision(id: &str, inhalt: &str) -> Node {
    Node {
        id: id.into(),
        typ: NodeType::Decision,
        inhalt: inhalt.into(),
        begruendung: "damit".into(),
        datum: "2026-06-04T00:00:00Z".into(),
        basis_score: Score { bits: 0.5f64.to_bits() },
        score: Score { bits: 0 },
        status: "active".into(),
        herkunft: "session".into(),
        frage_id: None,
        wert: None,
        quelle_ids: vec![],
        session_id: None,
        tags: vec![],
        ueberholt: false,
        erledigt: false,
    }
}

fn fact(id: &str, frage_id: &str, wert: &str, status: &str, score: f64) -> Node {
    let mut n = decision(id, wert);
    n.typ = NodeType::Fact;
    n.status = status.into();
    n.score = Score { bits: score.to_bits() };
    n.frage_id = Some(frage_id.into());
    n.wert = Some(wert.into());
    n
}

fn question(id: &str, inhalt: &str, werte: Vec<&str>) -> Frage {
    Frage {
        id: id.into(),
        inhalt: inhalt.into(),
        werte: werte.into_iter().map(str::to_string).collect(),
    }
}

#[test]
fn hooks_bail_only_inside_the_observer_agent() {
    // inside the agent: every hook bails
    for s in ["knowledge-index", "knowledge-hint", "observer-trigger"] {
        assert!(hook_should_bail(true, Some(s)), "{s} must bail when internal");
    }
    // non-hooks keep running even inside the agent (none are spawned by it anyway)
    for s in ["observer-daemon", "daemon", "mcp-serve", "view", "__view-serve"] {
        assert!(!hook_should_bail(true, Some(s)), "{s} must not bail");
    }
    // normal sessions (not internal): nothing bails
    for s in ["knowledge-index", "knowledge-hint", "observer-trigger"] {
        assert!(!hook_should_bail(false, Some(s)), "{s} must run when not internal");
    }
    assert!(!hook_should_bail(true, None));
}

#[test]
fn index_some_with_decision_and_open_question() {
    let g = KnowledgeGraph {
        nodes: vec![
            decision("d", "Wir nutzen Tauri 2"),
            fact("a", "q", "SQLite", "disputed", 0.33),
            fact("b", "q", "Postgres", "disputed", 0.33),
        ],
        fragen: vec![question("q", "Welche DB?", vec!["SQLite", "Postgres"])],
        ..Default::default()
    };
    let s = build_index_envelope(&g, &enabled_cfg()).expect("expected Some");
    let v: Value = serde_json::from_str(&s).unwrap();
    assert_eq!(v["hookSpecificOutput"]["hookEventName"].as_str(), Some("SessionStart"));
    let ctx = v["hookSpecificOutput"]["additionalContext"].as_str().unwrap();
    assert!(ctx.contains("Wir nutzen Tauri 2"), "decision text missing: {ctx}");
    assert!(ctx.contains("Active decisions:"), "header missing: {ctx}");
    assert!(ctx.contains("Welche DB?"), "open question missing: {ctx}");
    assert!(ctx.contains("leading: SQLite"), "leading value missing: {ctx}");
}

#[test]
fn index_none_when_disabled() {
    let g = KnowledgeGraph { nodes: vec![decision("d", "Egal")], ..Default::default() };
    assert!(build_index_envelope(&g, &disabled_cfg()).is_none());
}

#[test]
fn index_none_when_empty_graph() {
    assert!(build_index_envelope(&KnowledgeGraph::default(), &enabled_cfg()).is_none());
}

#[test]
fn index_text_none_when_only_uninformative() {
    // Empty graph → no active decision and no open question → text None.
    let g = KnowledgeGraph::default();
    assert!(build_index_text(&g, 15, 15).is_none());
}

#[test]
fn hint_none_when_no_pending() {
    assert!(build_hint_envelope(&take(None)).is_none());
}

#[test]
fn hint_some_then_cleared() {
    let pending = append("Index aktualisiert: Foo").unwrap();
    let s = build_hint_envelope(&take(Some(&pending))).expect("expected Some");
    let v: Value = serde_json::from_str(&s).unwrap();
    assert_eq!(v["hookSpecificOutput"]["hookEventName"].as_str(), Some("UserPromptSubmit"));
    let ctx = v["hookSpecificOutput"]["additionalContext"].as_str().unwrap();
    assert!(ctx.contains("Index aktualisiert: Foo"), "hint text missing: {ctx}");
    // The file is gone after that.
    assert!(build_hint_envelope(&take(None)).is_none());
}

#[test]
fn envelope_roundtrips_text_with_quotes_and_newlines() {
    let text = "Zeile1 mit \"Anführung\"\nZeile2\tTab und \\ Backslash";
    let s = envelope("UserPromptSubmit", text);
    let v: Value = serde_json::from_str(&s).expect("valid JSON");
    assert_eq!(v["hookSpecificOutput"]["hookEventName"].as_str(), Some("UserPromptSubmit"));
    assert_eq!(
        v["hookSpecificOutput"]["additionalContext"].as_str(),
        Some(text),
        "text must round-trip verbatim (escaping correct)"
    );
}

#[test]
fn index_respects_decision_cap() {
    let nodes = (0..5).map(|i| decision(&format!("d{i}"), &format!("Decision {i}"))).collect();
    let g = KnowledgeGraph { nodes, ..Default::default() };
    let mut cfg = enabled_cfg();
    cfg.max_decisions = 2;
    let s = build_index_envelope(&g, &cfg).expect("expected Some");
    let v: Value = serde_json::from_str(&s).unwrap();
    let ctx = v["hookSpecificOutput"]["additionalContext"].as_str().unwrap();
    let count = ctx.matches("- Decision").count();
    assert_eq!(count, 2, "decision cap should limit to 2, ctx: {ctx}");
}

#[test]
fn index_leaves_out_what_no_longer_holds() {
    let mut old = decision("d", "Alt");
    old.status = "superseded".into();
    let g = KnowledgeGraph {
        nodes: vec![old, fact("a", "q", "SQLite", "supported", 0.6)],
        fragen: vec![question("q", "Welche DB?", vec!["SQLite"])],
        ..Default::default()
    };
    assert!(build_index_text(&g, 15, 15).is_none());
}

#[test]
fn index_caps_questions_too() {
    let g = KnowledgeGraph {
        fragen: vec![question("q", "A?", vec![]), question("r", "B?", vec![])],
        ..Default::default()
    };
    assert!(build_index_text(&g, 15, 0).is_none());
    let text = build_index_text(&g, 15, 1).unwrap();
    assert!(text.contains("A?") && !text.contains("B?"), "{text}");
}

#[test]
fn hooks_resolve_project_and_session() {
    let some = |s: &str| Some(s.to_string());
    assert_eq!(resolve_project_dir(some("/in"), some("/c"), some("/o"), some("/cwd")), "/in");
    assert_eq!(resolve_project_dir(some(" "), some("/c"), some("/o"), some("/cwd")), "/c");
    assert_eq!(resolve_project_dir(None, some(""), some("/o"), some("/cwd")), "/o");
    assert_eq!(resolve_project_dir(None, None, None, some("/cwd")), "/cwd");
    assert_eq!(resolve_project_dir(None, None, None, None), ".");
    assert_eq!(resolve_session_id(some("env"), some("in")), "env");
    assert_eq!(resolve_session_id(some("  "), some("in")), "in");
    assert_eq!(resolve_session_id(None, None), "");
}
