use knowledge_observer::json::write_json;
use knowledge_observer::observer::apply::{apply_ops_store, filter_known, make_request};
use knowledge_observer::observer::contract::{ExtractionResult, LinkSpec, Op, UpdateFields};
use knowledge_observer::store::model::KnowledgeGraph;

fn add(typ: &str, inhalt: &str, begruendung: &str) -> Op {
    add_with_quellen(typ, inhalt, begruendung, vec![])
}

/// Like `add`, but with cited document ids.
fn add_with_quellen(typ: &str, inhalt: &str, begruendung: &str, quellen: Vec<&str>) -> Op {
    Op::Add {
        typ: typ.to_string(),
        inhalt: inhalt.to_string(),
        begruendung: begruendung.to_string(),
        tags: vec![],
        links: vec![],
        quellen: quellen.into_iter().map(str::to_string).collect(),
    }
}

fn result(ops: Vec<Op>) -> ExtractionResult {
    ExtractionResult { ops, rolling_summary: String::new(), hint: String::new() }
}

#[test]
fn add_with_begruendung_lands_with_origin() {
    let mut g = KnowledgeGraph::default();
    let r = result(vec![add("beobachtung", "the pty manager owns the writer", "welche Frage?")]);
    assert_eq!(apply_ops_store(&mut g, "/p", "sess-77", true, &vec![], &r), 1);
    assert_eq!(g.nodes.len(), 1);
    assert_eq!(g.nodes[0].inhalt, "the pty manager owns the writer");
    assert_eq!(g.nodes[0].session_id.as_deref(), Some("sess-77"));
}

#[test]
fn add_without_begruendung_is_dropped() {
    let mut g = KnowledgeGraph::default();
    let r = result(vec![add("beobachtung", "no rationale here", "   ")]);
    assert_eq!(apply_ops_store(&mut g, "/p", "sess-1", true, &vec![], &r), 0);
    assert!(g.nodes.is_empty());
}

#[test]
fn duplicate_adds_create_only_one_node() {
    let mut g = KnowledgeGraph::default();
    let r = result(vec![
        add("fakt", "DB uses WAL mode", "user said"),
        add("fakt", "DB uses WAL mode", "user said"),
    ]);
    // First add mutates; the second hits dedup → idempotent (no mutation).
    assert_eq!(apply_ops_store(&mut g, "/p", "sess-2", true, &vec![], &r), 1);
    assert_eq!(g.nodes.len(), 1);
}

#[test]
fn link_between_existing_nodes_creates_edge() {
    let mut g = KnowledgeGraph::default();
    let setup = result(vec![
        add("erkenntnis", "Pathfinding is the bottleneck", "warum?"),
        add("beobachtung", "Profiler shows A* hot in frames", "welche Frage?"),
    ]);
    assert_eq!(apply_ops_store(&mut g, "/p", "sess-3", true, &vec![], &setup), 2);
    // Now link them by title substring.
    let link = result(vec![Op::Link {
        von: "Pathfinding is the bottleneck".to_string(),
        zu: "Profiler shows A*".to_string(),
        polaritaet: "stuetzt".to_string(),
    }]);
    assert_eq!(apply_ops_store(&mut g, "/p", "sess-3", true, &vec![], &link), 1);
    assert_eq!(g.edges.len(), 1, "expected one edge between the two nodes");
}

#[test]
fn add_citing_real_document_lands_quelle_id() {
    let mut g = KnowledgeGraph::default();
    let doc_id = ".host/features/F004-weapons.md".to_string();
    let r = result(vec![add_with_quellen(
        "fakt",
        "Weapons use a 32-byte header",
        "documented in F004",
        vec![&doc_id],
    )]);
    assert_eq!(apply_ops_store(&mut g, "/p", "sess-q1", true, &vec![doc_id.clone()], &r), 1);
    assert_eq!(g.nodes.len(), 1);
    assert!(g.nodes[0].quelle_ids.contains(&doc_id), "{:?}", g.nodes[0].quelle_ids);
}

#[test]
fn add_citing_bogus_document_is_filtered_out() {
    let mut g = KnowledgeGraph::default();
    let known = vec![".host/features/real.md".to_string()];
    let r = result(vec![add_with_quellen(
        "fakt",
        "Some fact",
        "user said",
        vec![".host/features/does-not-exist.md"],
    )]);
    assert_eq!(apply_ops_store(&mut g, "/p", "sess-q2", true, &known, &r), 1);
    assert_eq!(g.nodes.len(), 1);
    assert!(g.nodes[0].quelle_ids.is_empty(), "{:?}", g.nodes[0].quelle_ids);
}

#[test]
fn update_nonexistent_node_does_not_mutate() {
    let mut g = KnowledgeGraph::default();
    let r = result(vec![Op::Update {
        id: "does-not-exist".to_string(),
        fields: UpdateFields {
            inhalt: Some("new".into()),
            ueberholt: Some(true),
            ..Default::default()
        },
    }]);
    assert_eq!(apply_ops_store(&mut g, "/p", "sess-4", true, &vec![], &r), 0);
    assert!(g.nodes.is_empty());
}

#[test]
fn update_replaces_the_sources_it_names() {
    let known = vec!["a.md".to_string(), "b.md".to_string()];
    let mut g = KnowledgeGraph::default();
    let r = result(vec![add_with_quellen("fakt", "x", "y", vec!["a.md"])]);
    apply_ops_store(&mut g, "/p", "s", true, &known, &r);
    let id = g.nodes[0].id.clone();
    let mut after = |quellen: Option<Vec<&str>>| {
        let fields = UpdateFields {
            quellen: quellen.map(|q| q.into_iter().map(str::to_string).collect()),
            ..Default::default()
        };
        let r = result(vec![Op::Update { id: id.clone(), fields }]);
        assert_eq!(apply_ops_store(&mut g, "/p", "s", true, &known, &r), 1);
        g.nodes[0].quelle_ids.clone()
    };
    assert_eq!(after(None), vec!["a.md"]);
    assert_eq!(after(Some(vec!["b.md", "unknown.md"])), vec!["b.md"]);
    assert!(after(Some(vec!["unknown.md"])).is_empty());
    assert_eq!(after(Some(vec!["a.md"])), vec!["a.md"]);
    assert!(after(Some(vec![])).is_empty());
}

#[test]
fn a_disabled_project_takes_nothing() {
    let mut g = KnowledgeGraph::default();
    let r = result(vec![add("fakt", "x", "y")]);
    assert_eq!(apply_ops_store(&mut g, "/p", "s", false, &vec![], &r), 0);
    assert!(g.nodes.is_empty());
}

#[test]
fn an_op_becomes_a_request() {
    let op = Op::Add {
        typ: "fakt".into(),
        inhalt: "x".into(),
        begruendung: "y".into(),
        tags: vec!["t".into()],
        links: vec![LinkSpec { ziel: "z".into(), polaritaet: "stuetzt".into(), als: "parent".into() }],
        quellen: vec!["a.md".into(), "b.md".into()],
    };
    let (name, payload) = make_request(&op, &vec!["b.md".to_string()]).unwrap();
    assert_eq!(name, "record");
    assert_eq!(payload.get_text("inhalt").as_deref(), Some("x"));
    assert_eq!(payload.get("quellen").and_then(|q| q.get_texts()), Some(vec!["b.md".to_string()]));
    assert!(write_json(payload).contains(r#""ziel":"z""#));
}

#[test]
fn known_ids_are_kept_in_order() {
    let t = |v: Vec<&str>| -> Vec<String> { v.into_iter().map(str::to_string).collect() };
    assert_eq!(filter_known(&t(vec!["c", "a", "x"]), &t(vec!["a", "b", "c"])), t(vec!["c", "a"]));
    assert!(filter_known(&t(vec!["x"]), &t(vec![])).is_empty());
}
