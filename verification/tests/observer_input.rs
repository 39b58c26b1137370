use knowledge_observer::json::{parse_json, Json};
use knowledge_observer::observer::hints::{
    compute_index_delta, format_delta_hint, generate_hints, seed_baseline_datum, short_title,
};
use knowledge_observer::observer::input::{dag_excerpt, extract_text, format_turns, list_documents};
use knowledge_observer::score::Score;
use knowledge_observer::store::model::{Edge, KnowledgeGraph, Node, NodeType, Quelle};
use knowledge_observer::store::observer_hint::{append, take, HintState};

fn node(id: &str, status: &str, datum: &str, session: Option<&str>, inhalt: &str) -> Node {
    Node {
        id: id.to_string(),
        typ: NodeType::Fact,
        inhalt: inhalt.to_string(),
        begruendung: String::new(),
        datum: datum.to_string(),
        basis_score: Score { bits: 0 },
        score: Score { bits: 0 },
        status: status.to_string(),
        herkunft: "session".to_string(),
        frage_id: None,
        wert: None,
        quelle_ids: Vec::new(),
        session_id: session.map(|s| s.to_string()),
        tags: Vec::new(),
        ueberholt: false,
        erledigt: false,
    }
}

fn graph_of(nodes: Vec<Node>) -> KnowledgeGraph {
    KnowledgeGraph {
        nodes,
        ..Default::default()
    }
}

#[test]
fn format_turns_labels_roles_and_extracts_text() {
    let lines = vec![
        r#"{"type":"user","message":{"role":"user","content":[{"type":"text","text":"Use WAL mode"}]}}"#.to_string(),
        r#"{"type":"assistant","message":{"role":"assistant","content":"Done, WAL enabled"}}"#.to_string(),
    ];
    let out = format_turns(&lines);
    assert!(out.contains("User: Use WAL mode"));
    assert!(out.contains("Assistant: Done, WAL enabled"));
}

#[test]
fn format_turns_skips_empty_text_lines() {
    let lines = vec![
        r#"{"type":"assistant","message":{"role":"assistant","content":[{"type":"tool_use","name":"Read","input":{}}]}}"#.to_string(),
    ];
    let out = format_turns(&lines);
    assert!(out.trim().is_empty());
}

#[test]
fn extract_text_handles_string_and_array_and_tool_result() {
    let s: Json =
        parse_json(r#"{"message":{"content":"plain"}}"#).unwrap();
    assert_eq!(extract_text(&s), "plain");

    let a: Json = parse_json(
        r#"{"message":{"content":[{"type":"text","text":"a"},{"type":"tool_result","content":"b"}]}}"#,
    )
    .unwrap();
    assert_eq!(extract_text(&a), "a\nb");
}

#[test]
fn delta_includes_other_session_newer_node() {
    let g = graph_of(vec![node(
        "n1",
        "gestützt",
        "2026-06-17T12:00:00Z",
        Some("other-session"),
        "WAL mode",
    )]);
    let state = HintState {
        informed_node_ids: vec![],
        last_informed_datum: "2026-06-17T00:00:00Z".to_string(),
    };
    let delta = compute_index_delta(&g, "this-session", &state);
    assert_eq!(delta.len(), 1);
    assert_eq!(delta[0].id, "n1");
}

#[test]
fn delta_excludes_own_session_node() {
    let g = graph_of(vec![node(
        "n1",
        "gestützt",
        "2026-06-17T12:00:00Z",
        Some("this-session"),
        "X",
    )]);
    let state = HintState {
        informed_node_ids: vec![],
        last_informed_datum: "2026-06-17T00:00:00Z".to_string(),
    };
    assert!(compute_index_delta(&g, "this-session", &state).is_empty());
}

#[test]
fn delta_excludes_retired_and_refuted_nodes() {
    let g = graph_of(vec![
        node("a", "überholt", "2026-06-17T12:00:00Z", Some("other"), "old"),
        node("b", "widerlegt", "2026-06-17T12:00:00Z", Some("other"), "wrong"),
        node("c", "erledigt", "2026-06-17T12:00:00Z", Some("other"), "done"),
    ]);
    let state = HintState {
        informed_node_ids: vec![],
        last_informed_datum: "2026-06-17T00:00:00Z".to_string(),
    };
    assert!(compute_index_delta(&g, "this-session", &state).is_empty());
}

#[test]
fn delta_excludes_already_informed_id() {
    let g = graph_of(vec![node(
        "n1",
        "aktiv",
        "2026-06-17T12:00:00Z",
        Some("other"),
        "X",
    )]);
    let state = HintState {
        informed_node_ids: vec!["n1".to_string()],
        last_informed_datum: "2026-06-17T00:00:00Z".to_string(),
    };
    assert!(compute_index_delta(&g, "this-session", &state).is_empty());
}

#[test]
fn delta_excludes_not_newer_than_watermark() {
    let g = graph_of(vec![node(
        "n1",
        "aktiv",
        "2026-06-17T00:00:00Z",
        Some("other"),
        "X",
    )]);
    let state = HintState {
        informed_node_ids: vec![],
        last_informed_datum: "2026-06-17T00:00:00Z".to_string(),
    };
    assert!(compute_index_delta(&g, "this-session", &state).is_empty());
}

#[test]
fn seed_baseline_returns_max_datum() {
    let g = graph_of(vec![
        node("a", "aktiv", "2026-06-10T00:00:00Z", Some("other"), "older"),
        node("b", "aktiv", "2026-06-17T00:00:00Z", Some("other"), "newest"),
    ]);
    assert_eq!(seed_baseline_datum(&g), "2026-06-17T00:00:00Z");

    let seeded = HintState {
        informed_node_ids: vec![],
        last_informed_datum: seed_baseline_datum(&g),
    };
    assert!(compute_index_delta(&g, "this-session", &seeded).is_empty());
}

#[test]
fn seed_baseline_empty_graph_is_empty() {
    assert_eq!(seed_baseline_datum(&KnowledgeGraph::default()), "");
}

#[test]
fn format_delta_hint_caps_titles_and_adds_ellipsis() {
    let nodes = vec![
        node("a", "aktiv", "d", Some("o"), "Alpha"),
        node("b", "aktiv", "d", Some("o"), "Beta"),
        node("c", "aktiv", "d", Some("o"), "Gamma"),
        node("d", "aktiv", "d", Some("o"), "Delta"),
    ];
    let refs: Vec<&Node> = nodes.iter().collect();
    let line = format_delta_hint(&refs);
    assert!(line.starts_with("[Wissen] Index aktualisiert: 4 neue/geänderte Knoten"));
    assert!(line.contains("Alpha"));
    assert!(line.contains("Beta"));
    assert!(line.contains("Gamma"));
    assert!(!line.contains("Delta"));
    assert!(line.contains("…"));
}

#[test]
fn test_mark_informed_dedups_and_tracks_max_datum() {
    let mut state = HintState::default();
    state.mark_informed("node-a", "2026-06-10T00:00:00Z");
    state.mark_informed("node-a", "2026-06-05T00:00:00Z"); // dup id, older datum
    state.mark_informed("node-b", "2026-06-17T00:00:00Z");

    assert_eq!(state.informed_node_ids, vec!["node-a", "node-b"]);
    // Max datum wins, the older second call must not regress it.
    assert_eq!(state.last_informed_datum, "2026-06-17T00:00:00Z");
}

#[test]
fn test_append_then_take_returns_both_lines_in_order() {
    let mut pending = append("Index aktualisiert: Foo").unwrap();
    pending.push_str(&append("Wissen zu Bar existiert").unwrap());
    assert_eq!(take(Some(&pending)), "Index aktualisiert: Foo\nWissen zu Bar existiert");
    // Cleared after take.
    assert_eq!(take(None), "");
}

#[test]
fn test_take_absent_file_is_empty() {
    assert_eq!(take(None), "");
}

#[test]
fn test_append_empty_is_noop() {
    assert_eq!(append("   "), None);
    assert_eq!(append(""), None);
}

#[test]
fn marking_twice_changes_nothing() {
    let mut once = HintState::default();
    once.mark_informed("a", "2026-06-10T00:00:00Z");
    let mut twice = once.clone();
    twice.mark_informed("a", "2026-06-10T00:00:00Z");
    assert_eq!(once, twice);
}

#[test]
fn the_first_round_only_sets_the_baseline() {
    let g = graph_of(vec![node("n1", "aktiv", "2026-06-17T12:00:00Z", Some("other"), "X")]);
    let first = generate_hints(&g, "s", HintState::default(), "");
    assert!(first.lines.is_empty());
    assert!(first.save);
    assert_eq!(first.state.last_informed_datum, "2026-06-17T12:00:00Z");
    assert!(first.state.informed_node_ids.is_empty());
}

#[test]
fn news_is_reported_once() {
    let g = graph_of(vec![node("n1", "aktiv", "2026-06-17T12:00:00Z", Some("other"), "X")]);
    let state = HintState {
        informed_node_ids: vec![],
        last_informed_datum: "2026-06-17T00:00:00Z".to_string(),
    };
    let first = generate_hints(&g, "s", state, "look at n1");
    assert_eq!(first.lines.len(), 2);
    assert_eq!(first.lines[1], "[Knowledge] look at n1");
    assert_eq!(first.state.informed_node_ids, vec!["n1"]);
    assert!(first.save);
    let second = generate_hints(&g, "s", first.state, "");
    assert!(second.lines.is_empty());
    assert!(!second.save);
}

#[test]
fn titles_are_cut_after_sixty_characters() {
    assert_eq!(short_title("  Alpha Beta\n"), "Alpha Beta");
    assert_eq!(short_title(&"ä".repeat(60)), "ä".repeat(60));
    assert_eq!(short_title(&"ä".repeat(61)), format!("{}…", "ä".repeat(60)));
}

#[test]
fn the_excerpt_lists_the_best_nodes() {
    let mut a = node("a", "supported", "d", None, "Alpha");
    a.score = Score { bits: 0.5f64.to_bits() };
    a.tags = vec!["x".into(), "y".into()];
    let b = node("b", "disputed", "d", None, &"é".repeat(101));
    let mut g = graph_of(vec![b, a]);
    // A neighbour of a listed node is not listed for that.
    g.edges = vec![Edge {
        id: "e".into(),
        von: "a".into(),
        zu: "b".into(),
        polaritaet: "supports".into(),
        gewicht: Score { bits: 1.0f64.to_bits() },
    }];
    assert_eq!(dag_excerpt(&g, 1), "- [a] (fact/supported) Alpha  tags: x, y\n");
    assert_eq!(
        dag_excerpt(&g, 2),
        format!("- [b] (fact/disputed) {}…\n- [a] (fact/supported) Alpha  tags: x, y\n", "é".repeat(100))
    );
    assert_eq!(dag_excerpt(&g, 0), "");
}

#[test]
fn turns_that_are_no_json_stay_as_they_are() {
    let lines = vec!["not json".to_string(), r#"{"type":"user","message":{"content":"  hi  "}}"#.to_string()];
    assert_eq!(format_turns(&lines), "not json\nUser: hi\n\n");
}

#[test]
fn the_task_lists_the_documents_by_their_ids() {
    let doc = |id: &str, titel: &str| Quelle {
        id: id.into(),
        pfad: id.into(),
        titel: titel.into(),
        art: "doc".into(),
    };
    assert_eq!(list_documents("do it", &vec![]), "do it");
    assert_eq!(
        list_documents("do it", &vec![doc("adr/1.md", "First"), doc("f.md", "Second")]),
        "do it\n\nAvailable project documents:\n- [adr/1.md] First\n- [f.md] Second\n"
    );
}
