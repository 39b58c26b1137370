use knowledge_observer::score::Score;
use knowledge_observer::store::hygiene::{hygiene_hints, truncate, MAX_HINTS};
use knowledge_observer::store::model::{Edge, Frage, KnowledgeGraph, Node, NodeType};

fn sc(x: f64) -> Score {
    Score { bits: x.to_bits() }
}

fn mk(id: &str, typ: NodeType, inhalt: &str) -> Node {
    Node {
        id: id.into(),
        typ,
        inhalt: inhalt.into(),
        begruendung: "weil test".into(),
        datum: "2026-06-04T00:00:00Z".into(),
        basis_score: sc(0.5),
        score: sc(0.5),
        status: "unsupported".into(),
        herkunft: "session".into(),
        frage_id: None,
        wert: None,
        quelle_ids: vec![],
        session_id: None,
        tags: vec![],
        ueberholt: false,
        erledigt: false,
    }
}

fn ed(von: &str, zu: &str, pol: &str) -> Edge {
    Edge {
        id: format!("{von}-{zu}"),
        von: von.into(),
        zu: zu.into(),
        polaritaet: pol.into(),
        gewicht: sc(1.0),
    }
}

#[test]
fn hygiene_flags_unlinked_evidence() {
    let g = KnowledgeGraph {
        nodes: vec![mk("a", NodeType::Observation, "x"), mk("b", NodeType::Research, "y")],
        edges: vec![],
        fragen: vec![],
        quellen: vec![],
    };
    assert!(hygiene_hints(&g).iter().any(|s| s.contains("not attached to any insight")));
}

#[test]
fn hygiene_no_unlinked_when_bundled() {
    let g = KnowledgeGraph {
        nodes: vec![
            mk("E", NodeType::Insight, "insight"),
            mk("a", NodeType::Observation, "x"),
            mk("b", NodeType::Research, "y"),
        ],
        edges: vec![ed("E", "a", "supports"), ed("E", "b", "supports")],
        fragen: vec![],
        quellen: vec![],
    };
    assert!(!hygiene_hints(&g).iter().any(|s| s.contains("not attached to any insight")));
}

#[test]
fn hygiene_flags_competing_question() {
    let g = KnowledgeGraph {
        nodes: vec![],
        edges: vec![],
        fragen: vec![Frage {
            id: "q".into(),
            inhalt: "Py version?".into(),
            werte: vec!["3.11".into(), "3.12".into()],
        }],
        quellen: vec![],
    };
    assert!(hygiene_hints(&g).iter().any(|s| s.contains("competing values")));
}

#[test]
fn hygiene_flags_conflicting_support() {
    let g = KnowledgeGraph {
        nodes: vec![
            mk("E", NodeType::Insight, "claim"),
            mk("a", NodeType::Observation, "pro"),
            mk("b", NodeType::Observation, "con"),
        ],
        edges: vec![ed("E", "a", "supports"), ed("E", "b", "contradicts")],
        fragen: vec![],
        quellen: vec![],
    };
    assert!(hygiene_hints(&g).iter().any(|s| s.contains("conflict visible")));
}

#[test]
fn hygiene_flags_duplicates() {
    let g = KnowledgeGraph {
        nodes: vec![mk("a", NodeType::Observation, "Same Thing"), mk("b", NodeType::Observation, "same thing")],
        edges: vec![],
        fragen: vec![],
        quellen: vec![],
    };
    assert!(hygiene_hints(&g).iter().any(|s| s.contains("Possible duplicate")));
}

#[test]
fn hygiene_empty_graph_no_hints() {
    assert!(hygiene_hints(&KnowledgeGraph::default()).is_empty());
}

#[test]
fn hygiene_hints_read_as_documented() {
    let g = KnowledgeGraph {
        nodes: vec![
            mk("a", NodeType::Observation, "eins"),
            mk("b", NodeType::Research, "zwei"),
            mk("c", NodeType::Hypothesis, "drei"),
            mk("d", NodeType::Observation, "vier"),
            mk("e", NodeType::Observation, "fünf"),
        ],
        edges: vec![],
        fragen: vec![],
        quellen: vec![],
    };
    assert_eq!(
        hygiene_hints(&g),
        vec![
            "5 pieces of evidence are not attached to any insight (\"eins\", \"zwei\", \"drei\", \"vier\", …). Check whether they can be bundled into an insight (record_knowledge typ=insight, then link to the evidence)."
        ]
    );
}

#[test]
fn hygiene_one_loose_piece_is_no_hint() {
    let g = KnowledgeGraph {
        nodes: vec![mk("a", NodeType::Observation, "x"), mk("i", NodeType::Insight, "y")],
        edges: vec![],
        fragen: vec![],
        quellen: vec![],
    };
    assert!(hygiene_hints(&g).is_empty());
}

#[test]
fn hygiene_duplicates_are_reported_once_per_group() {
    let g = KnowledgeGraph {
        nodes: vec![
            mk("a", NodeType::Fact, "Same"),
            mk("b", NodeType::Fact, " same "),
            mk("c", NodeType::Decision, "SAME"),
        ],
        edges: vec![],
        fragen: vec![],
        quellen: vec![],
    };
    assert_eq!(
        hygiene_hints(&g),
        vec!["Possible duplicate: \"Same\" — merge or link instead of duplicating."]
    );
}

#[test]
fn hygiene_hints_are_capped() {
    let fragen: Vec<Frage> = (0..9)
        .map(|i| Frage {
            id: format!("q{i}"),
            inhalt: format!("Frage {i}"),
            werte: vec!["a".into(), "b".into()],
        })
        .collect();
    let g = KnowledgeGraph { nodes: vec![], edges: vec![], fragen, quellen: vec![] };
    let hints = hygiene_hints(&g);
    assert_eq!(hints.len(), MAX_HINTS);
    assert_eq!(
        hints[0],
        "Question \"Frage 0\" has competing values (a vs b). If one answer holds, record it (weight/insight); otherwise it stays disputed."
    );
}

#[test]
fn hygiene_conflict_names_the_node_once() {
    let g = KnowledgeGraph {
        nodes: vec![
            mk("E", NodeType::Insight, "claim"),
            mk("a", NodeType::Observation, "pro"),
            mk("b", NodeType::Observation, "con"),
        ],
        edges: vec![
            ed("E", "a", "supports"),
            ed("E", "b", "widerspricht"),
            ed("E", "a", "contradicts"),
            ed("X", "a", "supports"),
            ed("X", "b", "contradicts"),
        ],
        fragen: vec![],
        quellen: vec![],
    };
    assert_eq!(
        hygiene_hints(&g),
        vec![
            "\"claim\" has BOTH supporting AND contradicting evidence — conflict visible; assess or resolve it."
        ]
    );
}

#[test]
fn truncate_trims_and_cuts_by_characters() {
    assert_eq!(truncate("  kurz ", 10), "kurz");
    assert_eq!(truncate("ÄÖÜäöü", 3), "ÄÖÜ…");
    assert_eq!(truncate("abc", 3), "abc");
}
