use knowledge_observer::score::Score;
use knowledge_observer::store::model::{Edge, Frage, KnowledgeGraph, Node, NodeType};
use knowledge_observer::store::scoring::{
    next_task, record_outcome, recompute_scores, start, status_from, Balance, Outcome, Task,
};

fn sc(x: f64) -> Score {
    Score { bits: x.to_bits() }
}

fn val(s: Score) -> f64 {
    f64::from_bits(s.bits)
}

fn mk(id: &str, typ: NodeType, inhalt: &str) -> Node {
    Node {
        id: id.into(),
        typ,
        inhalt: inhalt.into(),
        begruendung: "weil test".into(),
        datum: "2026-06-04T00:00:00Z".into(),
        basis_score: sc(0.5),
        score: sc(0.5),
        status: "unsupported".into(),
        herkunft: "session".into(),
        frage_id: None,
        wert: None,
        quelle_ids: vec![],
        session_id: None,
        tags: vec![],
        ueberholt: false,
        erledigt: false,
    }
}

fn ed(von: &str, zu: &str, pol: &str) -> Edge {
    Edge {
        id: format!("{von}-{zu}"),
        von: von.into(),
        zu: zu.into(),
        polaritaet: pol.into(),
        gewicht: sc(1.0),
    }
}

fn leaf(id: &str, typ: NodeType, basis: f64) -> Node {
    let mut n = mk(id, typ, id);
    n.basis_score = sc(basis);
    n
}

fn fakt(id: &str, frage: &str, wert: &str, basis: f64) -> Node {
    let mut n = mk(id, NodeType::Fact, &format!("fakt {wert}"));
    n.basis_score = sc(basis);
    n.frage_id = Some(frage.into());
    n.wert = Some(wert.into());
    n
}

fn by<'a>(g: &'a KnowledgeGraph, id: &str) -> &'a Node {
    g.nodes.iter().find(|n| n.id == id).unwrap()
}

fn weigh(v: &[(Score, Score)]) -> f64 {
    v.iter().map(|(s, w)| val(*s) * val(*w)).fold(0.0, |a, b| a + b)
}

fn balance(pro: f64, con: f64) -> Balance {
    let all = pro + con;
    if all <= 1e-9 {
        return Balance::Little;
    }
    let r = con / all;
    if r < 0.2 {
        Balance::Supported
    } else if r > 0.8 {
        Balance::Refuted
    } else {
        Balance::Disputed
    }
}

fn work(t: &Task) -> Outcome {
    match t {
        Task::Leaf { basis, pro, con } => {
            Outcome { score: *basis, balance: balance(weigh(pro), weigh(con)) }
        }
        Task::Answer { own, all } => {
            let m = own.iter().fold(0.0, |a, s| a + val(*s));
            let t = all.iter().fold(0.0, |a, s| a + val(*s));
            Outcome { score: sc(m / (t + 1.0)), balance: balance(m, t - m) }
        }
        Task::Given { basis } => Outcome { score: *basis, balance: Balance::Little },
        Task::Inner { pro, con } => {
            let (p, c) = (weigh(pro), weigh(con));
            Outcome { score: sc(p / (p + c + 1.0)), balance: balance(p, c) }
        }
    }
}

fn rescore(g: &mut KnowledgeGraph) {
    let mut s = start(g);
    while let Some(t) = next_task(g, &s) {
        let outcome = work(&t);
        record_outcome(&mut s, outcome);
    }
    recompute_scores(g, &s);
}

#[test]
fn engine_worked_example_gestuetzt() {
    let mut g = KnowledgeGraph {
        nodes: vec![
            mk("D1", NodeType::Decision, "decide"),
            mk("E1", NodeType::Insight, "insight"),
            leaf("B1", NodeType::Observation, 0.9),
            leaf("R1", NodeType::Research, 0.7),
            leaf("V1", NodeType::Hypothesis, 0.3),
        ],
        edges: vec![
            ed("D1", "E1", "supports"),
            ed("E1", "B1", "supports"),
            ed("E1", "R1", "supports"),
            ed("E1", "V1", "supports"),
        ],
        fragen: vec![],
        quellen: vec![],
    };
    rescore(&mut g);
    assert_eq!(val(by(&g, "B1").score), 0.9);
    assert_eq!(by(&g, "B1").status, "supported"); // uncontested leaf
    assert!((val(by(&g, "E1").score) - 1.9 / 2.9).abs() < 1e-6, "E1={}", val(by(&g, "E1").score));
    assert_eq!(by(&g, "E1").status, "supported");
    // D1 (decision) keeps a groundedness SCORE below E1, but its STATUS is
    // the lifecycle "active" (decisions aren't belief-scored as supported/unsupported).
    assert!(val(by(&g, "D1").score) > 0.0 && val(by(&g, "D1").score) < val(by(&g, "E1").score));
    assert_eq!(by(&g, "D1").status, "active");
}

#[test]
fn engine_contradiction_makes_umstritten() {
    let mut g = KnowledgeGraph {
        nodes: vec![
            mk("E1", NodeType::Insight, "insight"),
            leaf("B1", NodeType::Observation, 0.9),
            leaf("R1", NodeType::Research, 0.7),
            leaf("V1", NodeType::Hypothesis, 0.3),
            leaf("B2", NodeType::Observation, 0.9),
        ],
        edges: vec![
            ed("E1", "B1", "supports"),
            ed("E1", "R1", "supports"),
            ed("E1", "V1", "supports"),
            ed("E1", "B2", "contradicts"),
        ],
        fragen: vec![],
        quellen: vec![],
    };
    rescore(&mut g);
    // pro=1.9, con=0.9 → score 1.9/3.8 = 0.5, r=0.9/2.8≈0.32 → disputed
    assert!((val(by(&g, "E1").score) - 0.5).abs() < 1e-6, "E1={}", val(by(&g, "E1").score));
    assert_eq!(by(&g, "E1").status, "disputed");
}

#[test]
fn engine_competing_facts_umstritten() {
    let mut g = KnowledgeGraph {
        nodes: vec![fakt("f1", "Q", "3.11", 0.95), fakt("f2", "Q", "3.12", 0.95)],
        edges: vec![],
        fragen: vec![Frage { id: "Q".into(), inhalt: "version?".into(), werte: vec!["3.11".into(), "3.12".into()] }],
        quellen: vec![],
    };
    rescore(&mut g);
    for n in &g.nodes {
        assert_eq!(n.status, "disputed");
        assert!((val(n.score) - 0.95 / 2.9).abs() < 1e-6, "score={}", val(n.score));
    }
}

#[test]
fn engine_consensus_facts_gestuetzt() {
    let mut g = KnowledgeGraph {
        nodes: vec![fakt("f1", "Q", "3.12", 0.95), fakt("f2", "Q", "3.12", 0.95)],
        edges: vec![],
        fragen: vec![Frage { id: "Q".into(), inhalt: "version?".into(), werte: vec!["3.12".into()] }],
        quellen: vec![],
    };
    rescore(&mut g);
    for n in &g.nodes {
        assert_eq!(n.status, "supported");
        assert!((val(n.score) - 1.9 / 2.9).abs() < 1e-6, "score={}", val(n.score));
    }
}

#[test]
fn engine_insight_without_evidence_is_unbelegt() {
    let mut g = KnowledgeGraph {
        nodes: vec![mk("E", NodeType::Insight, "x")],
        edges: vec![],
        fragen: vec![],
        quellen: vec![],
    };
    rescore(&mut g);
    assert_eq!(by(&g, "E").status, "unsupported");
    assert_eq!(val(by(&g, "E").score), 0.0);
}

#[test]
fn engine_standalone_fakt_scores_basis() {
    // A Fakt without a Frage (optional now) scores like a leaf = its basis.
    let mut f = mk("F", NodeType::Fact, "Python is 3.12");
    f.basis_score = sc(0.95);
    let mut g = KnowledgeGraph { nodes: vec![f], edges: vec![], fragen: vec![], quellen: vec![] };
    rescore(&mut g);
    assert_eq!(val(g.nodes[0].score), 0.95);
    assert_eq!(g.nodes[0].status, "supported");
}

#[test]
fn entscheidung_without_evidence_is_aktiv_not_unbelegt() {
    let mut g = KnowledgeGraph {
        nodes: vec![mk("D", NodeType::Decision, "use X")],
        edges: vec![],
        fragen: vec![],
        quellen: vec![],
    };
    rescore(&mut g);
    assert_eq!(g.nodes[0].status, "active");
}

#[test]
fn ersetzt_edge_retires_old_keeps_new_aktiv() {
    let mut g = KnowledgeGraph {
        nodes: vec![
            mk("ALT", NodeType::Decision, "old"),
            mk("NEU", NodeType::Decision, "new"),
        ],
        edges: vec![Edge {
            id: "e".into(),
            von: "NEU".into(),
            zu: "ALT".into(),
            polaritaet: "replaces".into(),
            gewicht: sc(1.0),
        }],
        fragen: vec![],
        quellen: vec![],
    };
    rescore(&mut g);
    let st = |id: &str| g.nodes.iter().find(|n| n.id == id).unwrap().status.clone();
    assert_eq!(st("ALT"), "superseded");
    assert_eq!(st("NEU"), "active");
}

#[test]
fn ueberholt_flag_retires_any_node() {
    let mut a = mk("A", NodeType::Insight, "claim");
    a.ueberholt = true;
    let mut g = KnowledgeGraph { nodes: vec![a], edges: vec![], fragen: vec![], quellen: vec![] };
    rescore(&mut g);
    assert_eq!(g.nodes[0].status, "superseded");
}

#[test]
fn erledigt_flag_marks_done_ueberholt_wins() {
    let mut d = mk("D", NodeType::Decision, "do X");
    d.erledigt = true;
    let mut g = KnowledgeGraph { nodes: vec![d], edges: vec![], fragen: vec![], quellen: vec![] };
    rescore(&mut g);
    assert_eq!(g.nodes[0].status, "done");
    // überholt takes precedence over erledigt.
    g.nodes[0].ueberholt = true;
    rescore(&mut g);
    assert_eq!(g.nodes[0].status, "superseded");
}

#[test]
fn evidence_is_ordered_before_what_rests_on_it() {
    let g = KnowledgeGraph {
        nodes: vec![
            mk("top", NodeType::Decision, "t"),
            mk("mid", NodeType::Insight, "m"),
            leaf("low", NodeType::Observation, 0.9),
        ],
        edges: vec![ed("top", "mid", "supports"), ed("mid", "low", "supports")],
        fragen: vec![],
        quellen: vec![],
    };
    assert_eq!(start(&g).order, vec!["low", "mid", "top"]);
}

#[test]
fn a_cycle_drops_no_node() {
    let mut g = KnowledgeGraph {
        nodes: vec![
            mk("a", NodeType::Insight, "a"),
            mk("b", NodeType::Insight, "b"),
            leaf("c", NodeType::Observation, 0.9),
        ],
        edges: vec![ed("a", "b", "supports"), ed("b", "a", "supports"), ed("a", "c", "supports")],
        fragen: vec![],
        quellen: vec![],
    };
    let mut order = start(&g).order;
    assert_eq!(order[0], "c");
    order.sort();
    assert_eq!(order, vec!["a", "b", "c"]);
    rescore(&mut g);
    assert_eq!(by(&g, "c").status, "supported");
}

#[test]
fn replacing_edges_are_no_evidence() {
    let mut g = KnowledgeGraph {
        nodes: vec![mk("new", NodeType::Insight, "n"), leaf("old", NodeType::Observation, 0.9)],
        edges: vec![ed("new", "old", "ersetzt")],
        fragen: vec![],
        quellen: vec![],
    };
    rescore(&mut g);
    assert_eq!(by(&g, "new").status, "unsupported");
    assert_eq!(val(by(&g, "new").score), 0.0);
    assert_eq!(by(&g, "old").status, "superseded");
}

#[test]
fn weights_and_missing_children_count() {
    let mut e = ed("E", "B", "supports");
    e.gewicht = sc(2.0);
    let mut g = KnowledgeGraph {
        nodes: vec![mk("E", NodeType::Insight, "e"), leaf("B", NodeType::Observation, 0.5)],
        edges: vec![e, ed("E", "gone", "contradicts")],
        fragen: vec![],
        quellen: vec![],
    };
    rescore(&mut g);
    assert_eq!(val(by(&g, "E").score), 0.5);
    assert_eq!(by(&g, "E").status, "supported");
}

#[test]
fn contested_leaf_takes_the_balance() {
    let mut g = KnowledgeGraph {
        nodes: vec![leaf("B", NodeType::Observation, 0.9), leaf("C", NodeType::Research, 0.7)],
        edges: vec![ed("B", "C", "contradicts")],
        fragen: vec![],
        quellen: vec![],
    };
    rescore(&mut g);
    assert_eq!(by(&g, "B").status, "refuted");
    assert_eq!(val(by(&g, "B").score), 0.9);
}

#[test]
fn scoring_a_scored_graph_again_changes_nothing() {
    let mut g = KnowledgeGraph {
        nodes: vec![mk("E", NodeType::Insight, "e"), leaf("B", NodeType::Observation, 0.9)],
        edges: vec![ed("E", "B", "supports")],
        fragen: vec![],
        quellen: vec![],
    };
    rescore(&mut g);
    let first: Vec<(Score, String)> = g.nodes.iter().map(|n| (n.score, n.status.clone())).collect();
    rescore(&mut g);
    let second: Vec<(Score, String)> = g.nodes.iter().map(|n| (n.score, n.status.clone())).collect();
    assert_eq!(first, second);
}

#[test]
fn statuses_name_the_balance() {
    assert_eq!(status_from(Balance::Little), "unsupported");
    assert_eq!(status_from(Balance::Supported), "supported");
    assert_eq!(status_from(Balance::Refuted), "refuted");
    assert_eq!(status_from(Balance::Disputed), "disputed");
}

#[test]
fn evidence_comes_first_beside_a_cycle() {
    // x and y rest on each other, and p on them; a rests on b, and b on c.
    let mut g = KnowledgeGraph::default();
    for id in ["p", "a", "x", "b", "y", "c"] {
        g.nodes.push(mk(id, NodeType::Insight, id));
    }
    g.edges = vec![
        ed("x", "y", "supports"),
        ed("y", "x", "supports"),
        ed("p", "x", "supports"),
        ed("a", "b", "supports"),
        ed("b", "c", "supports"),
    ];
    let order = start(&g).order;
    let at = |id: &str| order.iter().position(|o| o == id).unwrap();
    assert_eq!(order.len(), 6);
    assert!(at("c") < at("b") && at("b") < at("a"));
}

#[test]
fn the_order_of_the_nodes_does_not_matter() {
    let nodes = vec![
        leaf("o", NodeType::Observation, 0.9),
        leaf("r", NodeType::Research, 0.7),
        mk("i", NodeType::Insight, "i"),
        mk("d", NodeType::Decision, "d"),
    ];
    let edges = vec![
        ed("i", "o", "supports"),
        ed("i", "r", "contradicts"),
        ed("d", "i", "supports"),
        ed("d", "o", "supports"),
    ];
    let mut g = KnowledgeGraph { nodes: nodes.clone(), edges: edges.clone(), ..Default::default() };
    let mut h = KnowledgeGraph { nodes, edges, ..Default::default() };
    h.nodes.reverse();
    rescore(&mut g);
    rescore(&mut h);
    for n in &g.nodes {
        assert_eq!((n.score, &n.status), (by(&h, &n.id).score, &by(&h, &n.id).status));
    }
    assert_eq!(val(by(&g, "i").score), 0.9 / (0.9 + 0.7 + 1.0));
}

#[test]
fn a_replacing_edge_leaves_scores_alone() {
    let mut g = KnowledgeGraph {
        nodes: vec![leaf("o", NodeType::Observation, 0.9), mk("i", NodeType::Insight, "i"), mk("j", NodeType::Insight, "j")],
        edges: vec![ed("i", "o", "supports"), ed("j", "o", "contradicts")],
        ..Default::default()
    };
    rescore(&mut g);
    let before: Vec<Score> = g.nodes.iter().map(|n| n.score).collect();
    g.edges.push(ed("i", "j", "replaces"));
    rescore(&mut g);
    assert_eq!(g.nodes.iter().map(|n| n.score).collect::<Vec<Score>>(), before);
    assert_eq!(by(&g, "j").status, "superseded");
}
