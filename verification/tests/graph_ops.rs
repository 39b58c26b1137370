use knowledge_observer::error::Error;
use knowledge_observer::score::Score;
use knowledge_observer::store::cycles::{has_cycle, would_cycle};
use knowledge_observer::store::lookup::{find_duplicate, norm_text, resolve_ref};
use knowledge_observer::store::merge::merge_nodes;
use knowledge_observer::store::model::{Edge, KnowledgeGraph, Node, NodeType, Quelle};
use knowledge_observer::store::ops::{
    add_edge, add_fact, add_node, delete_edge, delete_node, normalize_polaritaet, set_origin_session,
    set_quellen, update_node,
};

fn sc(x: f64) -> Score {
    Score { bits: x.to_bits() }
}

fn val(s: Score) -> f64 {
    f64::from_bits(s.bits)
}

fn mk(id: &str, typ: NodeType, inhalt: &str) -> Node {
    Node {
        id: id.into(),
        typ,
        inhalt: inhalt.into(),
        begruendung: "weil test".into(),
        datum: "2026-06-04T00:00:00Z".into(),
        basis_score: sc(0.5),
        score: sc(0.5),
        status: "unsupported".into(),
        herkunft: "session".into(),
        frage_id: None,
        wert: None,
        quelle_ids: vec![],
        session_id: None,
        tags: vec![],
        ueberholt: false,
        erledigt: false,
    }
}

fn ed(von: &str, zu: &str, pol: &str) -> Edge {
    Edge {
        id: format!("{von}-{zu}"),
        von: von.into(),
        zu: zu.into(),
        polaritaet: pol.into(),
        gewicht: sc(1.0),
    }
}

#[test]
fn resolve_ref_by_id_and_unique_title() {
    let g = KnowledgeGraph {
        nodes: vec![mk("n1", NodeType::Observation, "uses Phaser 4")],
        edges: vec![],
        fragen: vec![],
        quellen: vec![],
    };
    assert_eq!(resolve_ref(&g, "n1").unwrap(), "n1");
    assert_eq!(resolve_ref(&g, "phaser").unwrap(), "n1");
    assert!(resolve_ref(&g, "nope").is_err());
}

#[test]
fn find_duplicate_matches_normalized_same_type_only() {
    let g = KnowledgeGraph {
        nodes: vec![mk("n1", NodeType::Fact, "Uses   Python 3.12")],
        edges: vec![],
        fragen: vec![],
        quellen: vec![],
    };
    assert_eq!(find_duplicate(&g, NodeType::Fact, "uses python 3.12").as_deref(), Some("n1"));
    assert_eq!(find_duplicate(&g, NodeType::Observation, "uses python 3.12"), None);
}

#[test]
fn polaritaet_is_normalized() {
    assert_eq!(normalize_polaritaet("+").unwrap(), "supports");
    assert_eq!(normalize_polaritaet("supports").unwrap(), "supports");
    assert_eq!(normalize_polaritaet("contradicts").unwrap(), "contradicts");
    assert_eq!(normalize_polaritaet("-").unwrap(), "contradicts");
    assert_eq!(normalize_polaritaet("replaces").unwrap(), "replaces");
    // Legacy German inputs still normalize to the English codes (back-compat).
    assert_eq!(normalize_polaritaet("stützt").unwrap(), "supports");
    assert_eq!(normalize_polaritaet("widerspricht").unwrap(), "contradicts");
    assert_eq!(normalize_polaritaet("ersetzt").unwrap(), "replaces");
    assert!(normalize_polaritaet("maybe").is_err());
}

#[test]
fn add_node_roundtrips_with_default_basis_score() {
    let mut g = KnowledgeGraph::default();
    let n = add_node(
        &mut g,
        NodeType::Observation,
        "host -p geht nicht".into(),
        "warum",
        None,
        "session",
    );
    assert_eq!(n.typ, NodeType::Observation);
    assert_eq!(val(n.basis_score), 0.90);
    assert_eq!(n.herkunft, "session");
    assert_eq!(n.begruendung, "warum");
    assert!(n.datum.ends_with("+00:00"));
    assert_eq!(g.nodes.len(), 1);
    assert_eq!(g.nodes[0].id, n.id);
    assert_eq!(n.id.len(), 36);
}

#[test]
fn add_node_honors_explicit_basis_score() {
    let mut g = KnowledgeGraph::default();
    let n = add_node(&mut g, NodeType::Hypothesis, "x".into(), "warum", Some(sc(0.42)), "manual");
    assert_eq!(val(n.basis_score), 0.42);
}

#[test]
fn default_basis_scores_by_type() {
    assert_eq!(val(NodeType::Fact.default_basis_score()), 0.95);
    assert_eq!(val(NodeType::Observation.default_basis_score()), 0.90);
    assert_eq!(val(NodeType::Research.default_basis_score()), 0.70);
    assert_eq!(val(NodeType::Hypothesis.default_basis_score()), 0.30);
    assert_eq!(val(NodeType::Insight.default_basis_score()), 0.50);
    assert_eq!(val(NodeType::Decision.default_basis_score()), 0.50);
}

#[test]
fn node_types_parse_in_both_languages() {
    assert_eq!(NodeType::parse(" Decision\n"), Some(NodeType::Decision));
    assert_eq!(NodeType::parse("ENTSCHEIDUNG"), Some(NodeType::Decision));
    assert_eq!(NodeType::parse("erkenntnis"), Some(NodeType::Insight));
    assert_eq!(NodeType::parse("fakt"), Some(NodeType::Fact));
    assert_eq!(NodeType::parse("beobachtung"), Some(NodeType::Observation));
    assert_eq!(NodeType::parse("recherche"), Some(NodeType::Research));
    assert_eq!(NodeType::parse("vermutung"), Some(NodeType::Hypothesis));
    assert_eq!(NodeType::parse("idea"), None);
    assert_eq!(NodeType::parse(""), None);
}

#[test]
fn add_edge_links_and_rejects_cycles() {
    let mut g = KnowledgeGraph::default();
    let a = add_node(&mut g, NodeType::Insight, "E".into(), "warum", None, "manual");
    let b = add_node(&mut g, NodeType::Observation, "B".into(), "warum", None, "manual");
    let e = add_edge(&mut g, &a.id, &b.id, "supports", None).unwrap();
    assert_eq!(val(e.gewicht), 1.0);
    let err = add_edge(&mut g, &b.id, &a.id, "supports", None).unwrap_err();
    assert_eq!(err.message(), "edge would create a cycle (graph must stay a DAG)");
    let err = add_edge(&mut g, &a.id, &a.id, "supports", None).unwrap_err();
    assert!(matches!(err, Error::Msg(_)));
    assert_eq!(g.edges.len(), 1);
    assert_eq!(g.edges[0].polaritaet, "supports");
}

#[test]
fn add_edge_rejects_missing_node() {
    let mut g = KnowledgeGraph::default();
    let a = add_node(&mut g, NodeType::Insight, "E".into(), "warum", None, "manual");
    let err = add_edge(&mut g, &a.id, "nope", "supports", None).unwrap_err();
    assert_eq!(err.message(), "node not found: nope");
    let err = add_edge(&mut g, "nope", &a.id, "supports", None).unwrap_err();
    assert_eq!(err.message(), "node not found: nope");
}

#[test]
fn add_edge_rejects_an_unknown_polarity() {
    let mut g = KnowledgeGraph::default();
    let a = add_node(&mut g, NodeType::Insight, "E".into(), "warum", None, "manual");
    let b = add_node(&mut g, NodeType::Observation, "B".into(), "warum", None, "manual");
    let err = add_edge(&mut g, &a.id, &b.id, " Maybe ", Some(sc(0.5))).unwrap_err();
    assert_eq!(
        err.message(),
        "invalid polaritaet 'maybe' (use 'supports', 'contradicts' or 'replaces')"
    );
    assert!(g.edges.is_empty());
    let e = add_edge(&mut g, &a.id, &b.id, " Überholt ", Some(sc(0.5))).unwrap();
    assert_eq!(e.polaritaet, "replaces");
    assert_eq!(val(e.gewicht), 0.5);
}

#[test]
fn would_cycle_follows_long_paths() {
    let edges = vec![ed("a", "b", "supports"), ed("b", "c", "supports"), ed("c", "d", "supports")];
    assert!(would_cycle(&edges, "d", "a"));
    assert!(!would_cycle(&edges, "a", "d"));
    assert!(would_cycle(&edges, "x", "x"));
    assert!(!would_cycle(&edges, "x", "a"));
}

#[test]
fn add_fact_creates_question_and_registers_value() {
    let mut g = KnowledgeGraph::default();
    let f1 = add_fact(
        &mut g,
        "Welche Python-Version?",
        "3.12",
        "pyproject sagt 3.12".into(),
        "woher",
        None,
        "session",
    );
    assert_eq!(f1.typ, NodeType::Fact);
    assert_eq!(f1.wert.as_deref(), Some("3.12"));
    assert_eq!(val(f1.basis_score), 0.95);
    for wert in ["3.11", "3.12"] {
        add_fact(
            &mut g,
            "Welche Python-Version?",
            wert,
            "CI nutzt das".into(),
            "woher",
            None,
            "session",
        );
    }
    assert_eq!(g.fragen.len(), 1, "same question reused");
    assert_eq!(g.fragen[0].werte, vec!["3.12", "3.11"]);
    assert_eq!(g.nodes.len(), 3);
    assert!(g.nodes.iter().all(|n| n.frage_id.as_ref() == Some(&g.fragen[0].id)));
}

#[test]
fn update_node_changes_fields() {
    let mut g = KnowledgeGraph::default();
    let n = add_node(&mut g, NodeType::Hypothesis, "alt".into(), "warum", None, "manual");
    let upd = update_node(
        &mut g,
        &n.id,
        Some("neu".into()),
        Some("warum neu".into()),
        Some(NodeType::Observation),
        Some(sc(0.8)),
        None,
        Some(vec!["t".into()]),
        None,
        Some(true),
    )
    .unwrap();
    assert_eq!(upd.inhalt, "neu");
    assert_eq!(upd.begruendung, "warum neu");
    assert_eq!(upd.typ, NodeType::Observation);
    assert_eq!(val(upd.basis_score), 0.8);
    assert_eq!(upd.tags, vec!["t"]);
    assert!(upd.erledigt && !upd.ueberholt);
    assert_eq!(upd.datum, n.datum);
    assert_eq!(g.nodes[0].inhalt, "neu");
    let err = update_node(&mut g, "nope", None, None, None, None, None, None, None, None)
        .unwrap_err();
    assert_eq!(err.message(), "node not found: nope");
}

#[test]
fn delete_node_removes_node_and_its_edges() {
    let mut g = KnowledgeGraph::default();
    let a = add_node(&mut g, NodeType::Insight, "E".into(), "warum", None, "manual");
    let b = add_node(&mut g, NodeType::Observation, "B".into(), "warum", None, "manual");
    add_edge(&mut g, &a.id, &b.id, "supports", None).unwrap();
    delete_node(&mut g, &b.id).unwrap();
    assert_eq!(g.nodes.len(), 1);
    assert!(g.edges.is_empty(), "edges touching a deleted node must be removed");
}

#[test]
fn delete_edge_removes_only_that_edge() {
    let mut g = KnowledgeGraph::default();
    let a = add_node(&mut g, NodeType::Insight, "E".into(), "warum", None, "manual");
    let b = add_node(&mut g, NodeType::Observation, "B".into(), "warum", None, "manual");
    let e = add_edge(&mut g, &a.id, &b.id, "supports", None).unwrap();
    let err = delete_edge(&mut g, "nope").unwrap_err();
    assert_eq!(err.message(), "edge not found: nope");
    assert_eq!(g.edges.len(), 1);
    delete_edge(&mut g, &e.id).unwrap();
    assert_eq!(g.nodes.len(), 2, "nodes stay");
    assert!(g.edges.is_empty());
}

#[test]
fn delete_node_missing_errs() {
    let mut g = KnowledgeGraph::default();
    let err = delete_node(&mut g, "nope").unwrap_err();
    assert_eq!(err.message(), "node not found: nope");
}

#[test]
fn merge_nodes_repoints_edges_and_unions_tags() {
    let mut g = KnowledgeGraph::default();
    let keep = add_node(&mut g, NodeType::Insight, "insight".into(), "warum", None, "manual");
    let dup = add_node(&mut g, NodeType::Insight, "insight dup".into(), "warum", None, "manual");
    let ev = add_node(&mut g, NodeType::Observation, "obs".into(), "warum", None, "manual");
    add_edge(&mut g, &dup.id, &ev.id, "supports", None).unwrap();
    add_edge(&mut g, &keep.id, &ev.id, "supports", None).unwrap();
    add_edge(&mut g, &keep.id, &dup.id, "supports", None).unwrap();
    update_node(
        &mut g,
        &dup.id,
        None,
        None,
        None,
        None,
        Some(vec!["d.md".into()]),
        Some(vec!["voxel".into(), "voxel".into()]),
        None,
        None,
    )
    .unwrap();
    let n = merge_nodes(&mut g, &dup.id, &keep.id).unwrap();
    assert_eq!(n.id, keep.id);
    assert_eq!(n.tags, vec!["voxel"]);
    assert_eq!(n.quelle_ids, vec!["d.md"]);
    assert!(g.nodes.iter().all(|n| n.id != dup.id), "dup removed");
    assert_eq!(g.edges.len(), 1, "no loop, no double");
    assert!(g.edges.iter().any(|e| e.von == keep.id && e.zu == ev.id), "edge re-pointed");
}

#[test]
fn merge_refuses_what_it_cannot_merge() {
    let mut g = KnowledgeGraph::default();
    let a = add_node(&mut g, NodeType::Insight, "a".into(), "warum", None, "manual");
    let msg = |r: Result<Node, Error>| r.unwrap_err().message();
    assert_eq!(msg(merge_nodes(&mut g, &a.id, &a.id)), "merge: 'from' and 'into' are the same");
    assert_eq!(msg(merge_nodes(&mut g, &a.id, "x")), "merge target not found: x");
    assert_eq!(msg(merge_nodes(&mut g, "x", &a.id)), "merge source not found: x");
    assert_eq!(g.nodes.len(), 1);
    let b = add_node(&mut g, NodeType::Insight, "b".into(), "warum", None, "manual");
    let c = add_node(&mut g, NodeType::Insight, "c".into(), "warum", None, "manual");
    add_edge(&mut g, &a.id, &b.id, "supports", None).unwrap();
    add_edge(&mut g, &b.id, &c.id, "supports", None).unwrap();
    for (from, into) in [(&a.id, &c.id), (&c.id, &a.id)] {
        assert_eq!(
            msg(merge_nodes(&mut g, from, into)),
            "merge would create a cycle (graph must stay a DAG)"
        );
    }
    assert_eq!((g.nodes.len(), g.edges.len()), (3, 2));
}

#[test]
fn a_cycle_that_was_there_does_not_hinder_a_merge() {
    let mut g = KnowledgeGraph {
        nodes: ["a", "b", "x", "y"].map(|id| mk(id, NodeType::Insight, id)).to_vec(),
        edges: vec![ed("x", "y", "supports"), ed("y", "x", "supports")],
        ..Default::default()
    };
    assert_eq!(merge_nodes(&mut g, "a", "b").unwrap().id, "b");
    assert_eq!((g.nodes.len(), g.edges.len()), (3, 2));
}

#[test]
fn cycles_are_found_wherever_they_lie() {
    assert!(!has_cycle(&vec![]));
    assert!(!has_cycle(&vec![ed("a", "b", "supports"), ed("a", "c", "supports"), ed("b", "c", "supports")]));
    assert!(has_cycle(&vec![ed("a", "a", "supports")]));
    assert!(has_cycle(&vec![
        ed("x", "a", "supports"),
        ed("a", "b", "supports"),
        ed("b", "c", "supports"),
        ed("c", "a", "supports"),
    ]));
}

#[test]
fn what_is_recorded_is_dated_in_utc() {
    let mut g = KnowledgeGraph::default();
    let n = add_node(&mut g, NodeType::Fact, "x".into(), "y", None, "manual");
    assert!(n.datum.ends_with("+00:00"), "{}", n.datum);
}

#[test]
fn set_quellen_replaces_the_list() {
    let q = Quelle {
        id: ".host/adr/1.md".into(),
        pfad: ".host/adr/1.md".into(),
        titel: "T".into(),
        art: "adr".into(),
    };
    let mut g = KnowledgeGraph::default();
    set_quellen(&mut g, vec![q.clone()]);
    assert_eq!(g.quellen, vec![q]);
    set_quellen(&mut g, vec![]);
    assert!(g.quellen.is_empty());
}

#[test]
fn set_origin_session_stamps_only_an_existing_node() {
    let mut g = KnowledgeGraph::default();
    let n = add_node(&mut g, NodeType::Insight, "a".into(), "warum", None, "manual");
    assert!(!set_origin_session(&mut g, "nope", "s"));
    assert!(set_origin_session(&mut g, &n.id, "s"));
    assert_eq!(g.nodes[0].session_id.as_deref(), Some("s"));
}

#[test]
fn resolve_ref_reports_ambiguity_and_absence() {
    let g = KnowledgeGraph {
        nodes: vec![
            mk("n1", NodeType::Observation, "uses Phaser 4"),
            mk("n2", NodeType::Observation, "Phaser is fast"),
        ],
        edges: vec![],
        fragen: vec![],
        quellen: vec![],
    };
    assert_eq!(resolve_ref(&g, "  n2 ").unwrap(), "n2");
    assert_eq!(resolve_ref(&g, "FAST").unwrap(), "n2");
    assert_eq!(
        resolve_ref(&g, "phaser").unwrap_err(),
        "'phaser' is ambiguous (2 matches): n1 ('uses Phaser 4…'); n2 ('Phaser is fast…')"
    );
    assert_eq!(
        resolve_ref(&g, "nope").unwrap_err(),
        "no node matches 'nope' — use an id from query_knowledge or a unique title fragment"
    );
}

#[test]
fn norm_text_joins_words_in_lower_case() {
    assert_eq!(norm_text("  Uses \t Python\u{a0}3.12\n"), "uses python 3.12");
    assert_eq!(norm_text("ÄÖ ẞ"), "äö ß");
    assert_eq!(norm_text("   "), "");
}

#[test]
fn errors_read_by_kind() {
    assert_eq!(Error::Io("gone".into()).message(), "io: gone");
    assert_eq!(Error::Json("bad".into()).message(), "json: bad");
    assert_eq!(Error::msg("plain".into()).message(), "plain");
}
