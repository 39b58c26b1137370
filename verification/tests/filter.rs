use knowledge_observer::score::Score;
use knowledge_observer::store::filter::{apply_filter, get_subgraph, QueryFilter};
use knowledge_observer::store::model::{Edge, Frage, KnowledgeGraph, Node, NodeType, Quelle};

fn sc(x: f64) -> Score {
    Score { bits: x.to_bits() }
}

fn mk(id: &str, typ: NodeType, inhalt: &str) -> Node {
    Node {
        id: id.into(),
        typ,
        inhalt: inhalt.into(),
        begruendung: "weil test".into(),
        datum: "2026-06-04T00:00:00Z".into(),
        basis_score: sc(0.5),
        score: sc(0.5),
        status: "unsupported".into(),
        herkunft: "session".into(),
        frage_id: None,
        wert: None,
        quelle_ids: vec![],
        session_id: None,
        tags: vec![],
        ueberholt: false,
        erledigt: false,
    }
}

fn ed(von: &str, zu: &str, pol: &str) -> Edge {
    Edge {
        id: format!("{von}-{zu}"),
        von: von.into(),
        zu: zu.into(),
        polaritaet: pol.into(),
        gewicht: sc(1.0),
    }
}

fn ids(g: &KnowledgeGraph) -> Vec<String> {
    g.nodes.iter().map(|n| n.id.clone()).collect()
}

#[test]
fn filter_by_keyword_includes_neighbor() {
    let g = KnowledgeGraph {
        nodes: vec![
            mk("E", NodeType::Insight, "rain insight"),
            mk("B", NodeType::Observation, "street is wet"),
            mk("X", NodeType::Observation, "unrelated stuff"),
        ],
        edges: vec![ed("E", "B", "supports")],
        fragen: vec![],
        quellen: vec![],
    };
    let view = apply_filter(&g, &QueryFilter { q: Some("rain".into()), ..Default::default() });
    let ids: Vec<&str> = view.nodes.iter().map(|n| n.id.as_str()).collect();
    assert!(ids.contains(&"E"), "keyword match");
    assert!(ids.contains(&"B"), "1-hop neighbour kept");
    assert!(!ids.contains(&"X"), "unrelated excluded");
    assert_eq!(view.edges.len(), 1);
}

#[test]
fn filter_by_type() {
    let g = KnowledgeGraph {
        nodes: vec![mk("E", NodeType::Insight, "i"), mk("B", NodeType::Observation, "b")],
        edges: vec![],
        fragen: vec![],
        quellen: vec![],
    };
    let view = apply_filter(&g, &QueryFilter { typ: Some(NodeType::Insight), ..Default::default() });
    assert_eq!(view.nodes.len(), 1);
    assert_eq!(view.nodes[0].id, "E");
}

#[test]
fn filter_by_status() {
    let mut a = mk("A", NodeType::Observation, "a");
    a.status = "disputed".into();
    let g = KnowledgeGraph { nodes: vec![a, mk("B", NodeType::Observation, "b")], edges: vec![], fragen: vec![], quellen: vec![] };
    let view = apply_filter(&g, &QueryFilter { status: Some("disputed".into()), ..Default::default() });
    assert_eq!(view.nodes.len(), 1);
    assert_eq!(view.nodes[0].id, "A");
}

#[test]
fn filter_limit_keeps_top_by_score() {
    let mut a = mk("A", NodeType::Observation, "keyword a");
    a.score = sc(0.9);
    let mut b = mk("B", NodeType::Observation, "keyword b");
    b.score = sc(0.5);
    let mut c = mk("C", NodeType::Observation, "keyword c");
    c.score = sc(0.1);
    let g = KnowledgeGraph { nodes: vec![a, b, c], edges: vec![], fragen: vec![], quellen: vec![] };
    let view = apply_filter(&g, &QueryFilter { q: Some("keyword".into()), limit: Some(2), ..Default::default() });
    let ids: Vec<&str> = view.nodes.iter().map(|n| n.id.as_str()).collect();
    assert!(ids.contains(&"A") && ids.contains(&"B") && !ids.contains(&"C"), "top-2 by score, got {ids:?}");
}

#[test]
fn filter_inactive_returns_all() {
    let g = KnowledgeGraph {
        nodes: vec![mk("A", NodeType::Observation, "a"), mk("B", NodeType::Observation, "b")],
        edges: vec![],
        fragen: vec![],
        quellen: vec![],
    };
    assert_eq!(apply_filter(&g, &QueryFilter::default()).nodes.len(), 2);
}

#[test]
fn filter_by_tags_matches_any() {
    let mut a = mk("A", NodeType::Observation, "a");
    a.tags = vec!["voxel".into()];
    let mut b = mk("B", NodeType::Observation, "b");
    b.tags = vec!["pathfinding".into()];
    let g = KnowledgeGraph { nodes: vec![a, b], edges: vec![], fragen: vec![], quellen: vec![] };
    let f = QueryFilter { tags: vec!["VOXEL".into()], ..Default::default() };
    let view = apply_filter(&g, &f);
    assert_eq!(view.nodes.len(), 1);
    assert_eq!(view.nodes[0].id, "A");
}

#[test]
fn get_subgraph_pulls_neighbourhood_to_depth() {
    let g = KnowledgeGraph {
        nodes: vec![
            mk("E", NodeType::Insight, "claim"),
            mk("B", NodeType::Observation, "obs"),
            mk("X", NodeType::Hypothesis, "far"),
        ],
        edges: vec![Edge {
            id: "e1".into(),
            von: "E".into(),
            zu: "B".into(),
            polaritaet: "supports".into(),
            gewicht: sc(1.0),
        }],
        fragen: vec![],
        quellen: vec![],
    };
    let sub = get_subgraph(&g, &vec!["E".into()], 1);
    let ids: Vec<&str> = sub.nodes.iter().map(|n| n.id.as_str()).collect();
    assert!(ids.contains(&"E") && ids.contains(&"B"), "{ids:?}");
    assert!(!ids.contains(&"X"));
}

fn chain() -> KnowledgeGraph {
    KnowledgeGraph {
        nodes: vec![
            mk("A", NodeType::Decision, "a"),
            mk("B", NodeType::Insight, "b"),
            mk("C", NodeType::Insight, "c"),
            mk("D", NodeType::Observation, "d"),
        ],
        edges: vec![ed("A", "B", "supports"), ed("B", "C", "supports"), ed("C", "D", "supports")],
        fragen: vec![],
        quellen: vec![],
    }
}

#[test]
fn subgraph_depth_counts_hops() {
    let g = chain();
    let seed: Vec<String> = vec!["A".into()];
    assert_eq!(ids(&get_subgraph(&g, &seed, 0)), vec!["A"]);
    assert_eq!(ids(&get_subgraph(&g, &seed, 1)), vec!["A", "B"]);
    assert_eq!(ids(&get_subgraph(&g, &seed, 2)), vec!["A", "B", "C"]);
    assert_eq!(ids(&get_subgraph(&g, &seed, usize::MAX)), vec!["A", "B", "C", "D"]);
    let back: Vec<String> = vec!["D".into()];
    assert_eq!(ids(&get_subgraph(&g, &back, 1)), vec!["C", "D"]);
    assert_eq!(get_subgraph(&g, &back, 1).edges.len(), 1);
}

#[test]
fn subgraph_keeps_asked_questions_and_all_documents() {
    let mut g = chain();
    g.nodes[0].frage_id = Some("q1".into());
    g.nodes[3].frage_id = Some("q2".into());
    g.fragen = vec![
        Frage { id: "q1".into(), inhalt: "eins?".into(), werte: vec![] },
        Frage { id: "q2".into(), inhalt: "zwei?".into(), werte: vec![] },
    ];
    g.quellen = vec![Quelle {
        id: "d.md".into(),
        pfad: "d.md".into(),
        titel: "D".into(),
        art: "doc".into(),
    }];
    let sub = get_subgraph(&g, &vec!["A".to_string()], 1);
    assert_eq!(sub.fragen.len(), 1);
    assert_eq!(sub.fragen[0].id, "q1");
    assert_eq!(sub.quellen.len(), 1);
}

#[test]
fn filter_limit_breaks_ties_by_position() {
    let g = KnowledgeGraph {
        nodes: vec![
            mk("A", NodeType::Fact, "k"),
            mk("B", NodeType::Fact, "k"),
            mk("C", NodeType::Fact, "k"),
        ],
        edges: vec![],
        fragen: vec![],
        quellen: vec![],
    };
    let f = QueryFilter { limit: Some(2), ..Default::default() };
    assert_eq!(ids(&apply_filter(&g, &f)), vec!["A", "B"]);
    let none = QueryFilter { limit: Some(0), ..Default::default() };
    assert!(apply_filter(&g, &none).nodes.is_empty());
}

#[test]
fn filter_limit_orders_negative_and_zero_scores() {
    let mut g = KnowledgeGraph {
        nodes: vec![
            mk("neg", NodeType::Fact, "k"),
            mk("minus_zero", NodeType::Fact, "k"),
            mk("zero", NodeType::Fact, "k"),
            mk("pos", NodeType::Fact, "k"),
        ],
        edges: vec![],
        fragen: vec![],
        quellen: vec![],
    };
    g.nodes[0].score = sc(-1.5);
    g.nodes[1].score = sc(-0.0);
    g.nodes[2].score = sc(0.0);
    g.nodes[3].score = sc(1e-300);
    let top = |n: usize| ids(&apply_filter(&g, &QueryFilter { limit: Some(n), ..Default::default() }));
    assert_eq!(top(1), vec!["pos"]);
    assert_eq!(top(2), vec!["minus_zero", "pos"]);
    assert_eq!(top(3), vec!["minus_zero", "zero", "pos"]);
}

#[test]
fn filter_conditions_are_combined() {
    let mut a = mk("A", NodeType::Fact, "Straße nass");
    a.tags = vec!["Wetter".into()];
    let mut b = mk("B", NodeType::Fact, "straße trocken");
    b.tags = vec!["Verkehr".into()];
    let g = KnowledgeGraph { nodes: vec![a, b], edges: vec![], fragen: vec![], quellen: vec![] };
    let f = QueryFilter {
        q: Some("STRASSE".to_lowercase().replace("ss", "ß")),
        tags: vec!["wetter".into(), "x".into()],
        ..Default::default()
    };
    assert_eq!(ids(&apply_filter(&g, &f)), vec!["A"]);
    assert!(f.is_active());
    assert!(!QueryFilter::default().is_active());
}
