use knowledge_observer::score::Score;
use knowledge_observer::store::documents::{
    art_from_lower, describe_document, doc_art, doc_title, is_document_dir, sort_documents,
};
use knowledge_observer::store::layout::{is_stale, node_file_name, sort_nodes};
use knowledge_observer::store::model::{KnowledgeGraph, Node, NodeType};
use knowledge_observer::store::node_md::{parse_node_md, serialize_node_md, split_body, BODY_SEP};
use knowledge_observer::store::observer_state::ObserverState;
use knowledge_observer::store::saved::node_files;

fn sc(x: f64) -> Score {
    Score { bits: x.to_bits() }
}

fn decimal(s: Score) -> String {
    format!("{}", f64::from_bits(s.bits))
}

fn to_md(n: &Node) -> String {
    serialize_node_md(n, &decimal(n.basis_score), &decimal(n.score))
}

fn from_md(md: &str) -> Node {
    let f = parse_node_md(md).expect("parse");
    let read = |t: Option<String>| sc(t.and_then(|t| t.parse().ok()).unwrap_or(0.0));
    Node { basis_score: read(f.basis_score), score: read(f.score), ..f.node }
}

fn full_node(id: &str, typ: NodeType) -> Node {
    Node {
        id: id.into(),
        typ,
        // multiline content with the body separator-ish text + special chars to
        // stress the round-trip (quotes, unicode, leading/trailing spaces).
        inhalt: "Zeile 1: \"host -p\" geht nicht.\nZeile 2: ümläuts & <html>\n  eingerückt".into(),
        begruendung: "weil:\n- verifiziert per Hand\n- ÄÖÜ ß 😀".into(),
        datum: "2026-06-04T12:34:56+00:00".into(),
        basis_score: sc(0.73),
        score: sc(0.61),
        status: "supported".into(),
        herkunft: "session".into(),
        frage_id: Some("frage-x".into()),
        wert: Some("3.12".into()),
        quelle_ids: vec![".host/adr/1.md".into(), ".host/specs/s.md".into()],
        session_id: Some("sess-42".into()),
        tags: vec!["voxel".into(), "path,finding".into()],
        ueberholt: true,
        erledigt: false,
    }
}

fn assert_node_eq(a: &Node, b: &Node) {
    assert_eq!(a.id, b.id, "id");
    assert_eq!(a.typ, b.typ, "typ");
    assert_eq!(a.inhalt, b.inhalt, "inhalt");
    assert_eq!(a.begruendung, b.begruendung, "begruendung");
    assert_eq!(a.datum, b.datum, "datum");
    assert_eq!(a.basis_score, b.basis_score, "basis_score");
    assert_eq!(a.score, b.score, "score");
    assert_eq!(a.status, b.status, "status");
    assert_eq!(a.herkunft, b.herkunft, "herkunft");
    assert_eq!(a.frage_id, b.frage_id, "frage_id");
    assert_eq!(a.wert, b.wert, "wert");
    assert_eq!(a.quelle_ids, b.quelle_ids, "quelle_ids");
    assert_eq!(a.session_id, b.session_id, "session_id");
    assert_eq!(a.tags, b.tags, "tags");
    assert_eq!(a.ueberholt, b.ueberholt, "ueberholt");
    assert_eq!(a.erledigt, b.erledigt, "done");
}

#[test]
fn node_md_roundtrips_every_field_for_each_type() {
    for typ in [
        NodeType::Decision,
        NodeType::Insight,
        NodeType::Fact,
        NodeType::Observation,
        NodeType::Research,
        NodeType::Hypothesis,
    ] {
        let n = full_node("id-1", typ);
        let md = to_md(&n);
        let parsed = from_md(&md);
        assert_node_eq(&n, &parsed);
    }
}

#[test]
fn node_md_roundtrips_minimal_optionals_absent() {
    let n = Node {
        id: "minimal".into(),
        typ: NodeType::Hypothesis,
        inhalt: "x".into(),
        begruendung: "y".into(),
        datum: "2026-01-01T00:00:00Z".into(),
        basis_score: sc(0.3),
        score: sc(0.3),
        status: "supported".into(),
        herkunft: "manual".into(),
        frage_id: None,
        wert: None,
        quelle_ids: vec![],
        session_id: None,
        tags: vec![],
        ueberholt: false,
        erledigt: false,
    };
    let parsed = from_md(&to_md(&n));
    assert_node_eq(&n, &parsed);
}

#[test]
fn node_md_reads_as_documented() {
    let n = full_node("id-1", NodeType::Fact);
    let md = to_md(&n);
    let lines: Vec<&str> = md.lines().collect();
    assert_eq!(lines[0], "---");
    assert!(lines.contains(&"id: \"id-1\"") || lines.contains(&"id: id-1"), "{md}");
    assert!(md.contains(BODY_SEP));
    assert!(md.contains("  eingerückt"));
}

#[test]
fn node_md_without_front_matter_is_no_node() {
    assert!(parse_node_md("").is_none());
    assert!(parse_node_md("just text").is_none());
    assert!(parse_node_md("---\nid: x\nno end").is_none());
}

#[test]
fn bodies_split_at_the_separator() {
    let body = format!("what\n\n{BODY_SEP}\nwhy\n");
    let (inhalt, begruendung) = split_body(&body);
    assert_eq!(inhalt.trim(), "what");
    assert_eq!(begruendung.trim(), "why");
    let (inhalt, begruendung) = split_body("only what");
    assert_eq!(inhalt.trim(), "only what");
    assert_eq!(begruendung, "");
}

#[test]
fn scan_documents_indexes_md_by_folder_and_skips_internal() {
    assert!(is_document_dir("adr"));
    assert!(!is_document_dir("sessions"), "internal dir → ignored");
    assert!(!is_document_dir("knowledge"));
    assert!(!is_document_dir(""));
    let doc = describe_document(
        "root\\adr\\001-foo.md",
        "001-foo",
        Some("# Decision Foo\n\nbody"),
        &doc_art("ADR"),
    );
    assert_eq!(doc.art, "adr");
    assert_eq!(doc.titel, "Decision Foo");
    assert!(doc.pfad.ends_with("adr/001-foo.md"), "{}", doc.pfad);
    assert_eq!(doc.id, doc.pfad);
}

#[test]
fn documents_without_a_heading_are_named_by_their_file() {
    assert_eq!(doc_title("text\n#\n##  First \n# Other"), Some("First".to_string()));
    assert_eq!(doc_title("no heading"), None);
    assert_eq!(describe_document("a/b.md", "b", None, "doc").titel, "b");
    assert_eq!(describe_document("a/b.md", "b", Some("no heading"), "doc").titel, "b");
}

#[test]
fn folders_name_the_kind_of_document() {
    for (folder, art) in [
        ("features", "feature"),
        ("decisions", "adr"),
        ("spec", "spec"),
        ("notes", "note"),
        ("documentation", "doc"),
        ("other", "other"),
    ] {
        assert_eq!(art_from_lower(folder), art);
    }
    assert_eq!(doc_art("Ünotes"), "ünotes");
}

#[test]
fn documents_and_nodes_are_sorted() {
    let docs = ["b.md", "a.md", "Z.md"].map(|p| describe_document(p, "s", None, "doc")).to_vec();
    let sorted: Vec<String> = sort_documents(docs).into_iter().map(|d| d.pfad).collect();
    assert_eq!(sorted, vec!["Z.md", "a.md", "b.md"]);
    let mut early = full_node("x", NodeType::Fact);
    early.datum = "2025-01-01T00:00:00Z".into();
    let nodes = vec![full_node("b", NodeType::Fact), full_node("a", NodeType::Fact), early];
    let sorted: Vec<String> = sort_nodes(nodes).into_iter().map(|n| n.id).collect();
    assert_eq!(sorted, vec!["x", "a", "b"]);
}

#[test]
fn a_saved_graph_has_its_nodes_again() {
    let mut early = full_node("z", NodeType::Decision);
    early.datum = "2025-01-01T00:00:00+00:00".into();
    let nodes = vec![full_node("b", NodeType::Fact), early, full_node("a", NodeType::Insight)];
    let g = KnowledgeGraph { nodes: nodes.clone(), ..Default::default() };
    let numbers = g.nodes.iter().map(|n| (decimal(n.basis_score), decimal(n.score))).collect();
    let mut files = vec![
        ("gone.md".to_string(), to_md(&full_node("gone", NodeType::Fact))),
        ("notes.txt".to_string(), "kept".to_string()),
    ];
    files.extend(node_files(&g, &numbers));
    files.retain(|f| !is_stale(&g, &f.0, f.0.ends_with(".md")));
    let names: Vec<&str> = files.iter().map(|f| f.0.as_str()).collect();
    assert_eq!(names, vec!["notes.txt", "b.md", "z.md", "a.md"]);
    files.reverse();
    let read = files.iter().filter(|f| f.0.ends_with(".md")).map(|f| from_md(&f.1)).collect();
    let sorted = sort_nodes(read);
    assert_eq!(sorted.len(), 3);
    for (got, want) in sorted.iter().zip([&nodes[1], &nodes[2], &nodes[0]]) {
        assert_node_eq(got, want);
    }
}

#[test]
fn files_of_gone_nodes_are_stale() {
    let g = KnowledgeGraph { nodes: vec![full_node("n1", NodeType::Fact)], ..Default::default() };
    assert_eq!(node_file_name("n1"), "n1.md");
    assert!(!is_stale(&g, "n1.md", true));
    assert!(is_stale(&g, "n2.md", true));
    assert!(!is_stale(&g, "notes.txt", false));
}

#[test]
fn test_missing_file_returns_default() {
    let s = ObserverState::default();
    assert_eq!(s.jsonl_stem, "");
    assert_eq!(s.watermark, 0);
    assert_eq!(s.rolling_summary, "");
    assert_eq!(s.observer_sid, "");
    assert_eq!(s.turn_count, 0);
    assert_eq!(s.last_run_at, 0);
}
