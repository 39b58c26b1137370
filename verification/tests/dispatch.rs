use knowledge_observer::dispatch::{
    compact_graph, dispatch_store, dispatch_with, finish, needs, nonempty, parse_query_filter,
    parse_quellen, parse_str_array, Answer, Fresh, Needs, Numbers, QUERY_NOTE, RECORD_TYP,
    RECORD_WHY,
};
use knowledge_observer::ipc::{authenticate, Admission, Entity, IpcRequest, IpcResponse, Reply};
use knowledge_observer::json::{parse_json, Json};
use knowledge_observer::score::Score;
use knowledge_observer::store::model::{KnowledgeGraph, Node, NodeType, Quelle};

const NONE: Numbers = Numbers { basis_score: None, gewicht: None };

fn req(op: &str, payload: &str) -> IpcRequest {
    IpcRequest {
        token: "t".into(),
        project_dir: "/p".into(),
        op: op.into(),
        payload: parse_json(payload).unwrap(),
        session_id: String::new(),
    }
}

fn run(g: &mut KnowledgeGraph, op: &str, payload: &str) -> (IpcResponse, bool) {
    run_as(g, req(op, payload))
}

fn run_as(g: &mut KnowledgeGraph, r: IpcRequest) -> (IpcResponse, bool) {
    let done = dispatch_store(&r, true, NONE, g, vec![]);
    let changed = done.changed;
    (finish(g, done.answer), changed)
}

fn refused(op: &str, payload: &str) -> String {
    let mut g = KnowledgeGraph::default();
    let (resp, changed) = run(&mut g, op, payload);
    assert!(!resp.ok && !changed && g.nodes.is_empty(), "{op} {payload}");
    assert!(matches!(resp.data, Reply::Nothing));
    resp.error.unwrap()
}

fn recorded(resp: &IpcResponse) -> &Node {
    match &resp.data {
        Reply::Recorded { entity: Entity::Node(n), .. } => n,
        other => panic!("{other:?}"),
    }
}

#[test]
fn record_rejects_missing_begruendung() {
    let mut g = KnowledgeGraph::default();
    let (resp, changed) = run(&mut g, "record", r#"{ "typ": "beobachtung", "inhalt": "x" }"#);
    assert!(!resp.ok && !changed);
    assert!(resp.error.unwrap().contains("begruendung"));
}

#[test]
fn record_with_begruendung_stores_it() {
    let mut g = KnowledgeGraph::default();
    let (resp, changed) = run(
        &mut g,
        "record",
        r#"{ "typ": "beobachtung", "inhalt": "x", "begruendung": "welche Frage?" }"#,
    );
    assert!(resp.ok && changed);
    assert_eq!(g.nodes.len(), 1);
    assert_eq!(g.nodes[0].begruendung, "welche Frage?");
}

#[test]
fn add_fact_rejects_missing_begruendung() {
    let mut g = KnowledgeGraph::default();
    let (resp, changed) =
        run(&mut g, "add_fact", r#"{ "frage": "Version?", "wert": "3.12", "inhalt": "x" }"#);
    assert!(!resp.ok && !changed);
    assert!(resp.error.unwrap().contains("begruendung"));
}

#[test]
fn record_stamps_origin_session() {
    let mut g = KnowledgeGraph::default();
    let mut r =
        req("record", r#"{ "typ": "beobachtung", "inhalt": "x", "begruendung": "warum?" }"#);
    r.session_id = "sess-42".into();
    let (resp, changed) = run_as(&mut g, r);
    assert!(resp.ok && changed);
    assert_eq!(g.nodes[0].session_id.as_deref(), Some("sess-42"));
}

#[test]
fn each_refusal_says_why() {
    assert_eq!(refused("record", r#"{ "inhalt": "x", "begruendung": "y" }"#), RECORD_TYP);
    assert_eq!(refused("record", r#"{ "typ": "idea", "inhalt": "x", "begruendung": "y" }"#), RECORD_TYP);
    assert_eq!(refused("record", r#"{ "typ": "fakt", "begruendung": "y" }"#), "record: missing 'inhalt'");
    assert_eq!(refused("record", r#"{ "typ": "fakt", "inhalt": "x" }"#), RECORD_WHY);
    assert_eq!(refused("bogus", "{}"), "unknown op: bogus");
    assert_eq!(
        refused("add_fact", r#"{ "frage": "f", "wert": "w", "inhalt": "x", "begruendung": "" }"#),
        "add_fact: missing 'begruendung' — the source / where this fact comes from"
    );
    assert_eq!(
        refused("link", r#"{ "von": "a", "zu": "b", "polaritaet": "supports" }"#),
        "link 'von': no node matches 'a' — use an id from query_knowledge or a unique title fragment"
    );
    assert_eq!(
        refused("merge", r#"{ "from": "a", "into": "b" }"#),
        "merge 'from': no node matches 'a' — use an id from query_knowledge or a unique title fragment"
    );
    assert_eq!(refused("update", r#"{ "id": "gone" }"#), "node not found: gone");
    assert_eq!(refused("update", "{}"), "update: requires 'id' (from query_knowledge)");
    assert_eq!(refused("update", r#"{ "id": "x", "typ": "idea" }"#), "update: invalid typ 'idea'");
    assert_eq!(refused("get", r#"{ "ids": [""] }"#), "get: requires 'ids' (node ids from query_knowledge)");
}

#[test]
fn disabled_projects_only_answer_ping() {
    let mut g = KnowledgeGraph::default();
    let r = req("record", r#"{ "typ": "fakt", "inhalt": "x", "begruendung": "y" }"#);
    let done = dispatch_store(&r, false, NONE, &mut g, vec![]);
    assert!(matches!(done.answer, Answer::Refused(t) if t == "knowledge is disabled for this project"));
    assert!(g.nodes.is_empty() && !done.save);
    let done = dispatch_store(&req("ping", "{}"), false, NONE, &mut g, vec![]);
    assert!(matches!(done.answer, Answer::Ready(Reply::Pong { project }) if project == "/p"));
    assert!(matches!(needs("record", false), Needs::Nothing));
    assert!(matches!(needs("record", true), Needs::Graph));
    assert!(matches!(needs("list_documents", true), Needs::Documents));
    assert!(matches!(needs("ping", true), Needs::Nothing));
}

#[test]
fn recording_the_same_again_points_to_the_first() {
    let mut g = KnowledgeGraph::default();
    let p = r#"{ "typ": "fakt", "inhalt": "DB uses WAL", "begruendung": "user said" }"#;
    run(&mut g, "record", p);
    let again = r#"{ "typ": "fact", "inhalt": " db  uses wal", "begruendung": "other" }"#;
    let (resp, changed) = run(&mut g, "record", again);
    assert!(resp.ok && !changed);
    assert_eq!(g.nodes.len(), 1);
    match resp.data {
        Reply::Duplicate { node, duplicate_of, .. } => {
            assert_eq!(node.id, g.nodes[0].id);
            assert_eq!(duplicate_of, g.nodes[0].id);
        }
        other => panic!("{other:?}"),
    }
}

#[test]
fn a_whole_life_of_requests() {
    let mut g = KnowledgeGraph::default();
    let (resp, _) = run(
        &mut g,
        "record",
        r#"{ "typ": "insight", "inhalt": "Pathfinding is slow", "begruendung": "why", "tags": ["perf", " "], "quellen": ["d.md"], "basis_score": 0.1 }"#,
    );
    let a = recorded(&resp).id.clone();
    assert_eq!(recorded(&resp).tags, vec!["perf"]);
    assert_eq!(g.nodes[0].quelle_ids, vec!["d.md"]);
    let (resp, _) = run(
        &mut g,
        "record",
        r#"{ "typ": "observation", "inhalt": "A* is hot", "begruendung": "profiler", "links": [ { "ziel": "pathfinding", "polaritaet": "stuetzt", "als": "parent" }, { "ziel": "nowhere" } ] }"#,
    );
    let b = recorded(&resp).id.clone();
    match &resp.data {
        Reply::Recorded { links, .. } => {
            assert_eq!(links.len(), 2);
            assert!(links[0].starts_with("linked "), "{links:?}");
            assert!(links[1].starts_with("link to 'nowhere' failed: "), "{links:?}");
        }
        other => panic!("{other:?}"),
    }
    assert_eq!(g.edges.len(), 1);
    let ends = (g.edges[0].von.clone(), g.edges[0].zu.clone());
    assert!(ends == (a.clone(), b.clone()) || ends == (b.clone(), a.clone()));

    let (resp, changed) = run(&mut g, "update", &format!(r#"{{ "id": "{a}", "ueberholt": true, "begruendung": " " }}"#));
    assert!(resp.ok && changed);
    assert!(g.nodes[0].ueberholt);
    assert_eq!(g.nodes[0].begruendung, "why");

    let (resp, changed) = run(&mut g, "get", &format!(r#"{{ "ids": ["{a}"], "depth": 1 }}"#));
    assert!(!changed);
    assert!(matches!(resp.data, Reply::Subgraph { graph } if graph.nodes.len() == 2));

    let (resp, changed) = run(&mut g, "merge", r#"{ "from": "A* is hot", "into": "Pathfinding" }"#);
    assert!(resp.ok && changed);
    assert_eq!(g.nodes.len(), 1);
    assert!(g.edges.is_empty());
}

#[test]
fn sources_that_are_given_replace_the_old_ones() {
    let mut g = KnowledgeGraph::default();
    let (resp, _) = run(
        &mut g,
        "record",
        r#"{ "typ": "fact", "inhalt": "x", "begruendung": "y", "quellen": ["a.md"], "tags": ["t"] }"#,
    );
    let id = recorded(&resp).id.clone();
    let mut after = |more: &str| {
        let (resp, _) = run(&mut g, "update", &format!(r#"{{ "id": "{id}", {more} }}"#));
        assert!(resp.ok, "{more}");
        g.nodes[0].quelle_ids.clone()
    };
    assert_eq!(after(r#""inhalt": "z""#), vec!["a.md"]);
    assert_eq!(after(r#""quellen": "b.md""#), vec!["a.md"]);
    assert_eq!(after(r#""quellen": ["b.md", " "]"#), vec!["b.md"]);
    assert!(after(r#""quellen": []"#).is_empty());
    assert_eq!(g.nodes[0].tags, vec!["t"]);
}

#[test]
fn overview_is_compact_and_says_so() {
    let mut g = KnowledgeGraph::default();
    run(&mut g, "record", r#"{ "typ": "beobachtung", "inhalt": "Ein beobachtetes Detail", "begruendung": "welche Frage beantwortet das?" }"#);
    let (resp, _) = run(&mut g, "query", "{}");
    match resp.data {
        Reply::Overview { nodes, edges, fragen, hints } => {
            assert_eq!(nodes.len(), 1);
            assert_eq!(nodes[0].titel, "Ein beobachtetes Detail");
            assert_eq!(nodes[0].typ, NodeType::Observation);
            assert!(edges.is_empty() && fragen.is_empty());
            assert_eq!(hints.last().unwrap(), QUERY_NOTE);
        }
        other => panic!("{other:?}"),
    }
    let (resp, _) = run(&mut g, "query", r#"{ "q": "nothing like it" }"#);
    match resp.data {
        Reply::Overview { nodes, hints, .. } => {
            assert!(nodes.is_empty());
            assert!(
                hints.iter().any(|h| h == "Gefiltert: 0 von 1 Knoten. Filter: q/typ/status/tags/limit."),
                "{hints:?}"
            );
        }
        other => panic!("{other:?}"),
    }
}

#[test]
fn long_titles_are_cut_in_the_overview() {
    let mut g = KnowledgeGraph::default();
    run(
        &mut g,
        "record",
        &format!(r#"{{ "typ": "fakt", "inhalt": "{}", "begruendung": "y" }}"#, "ä".repeat(200)),
    );
    match compact_graph(&g, vec![]) {
        Reply::Overview { nodes, .. } => {
            assert!(nodes[0].titel.chars().count() < 200);
            assert!(nodes[0].titel.ends_with('…'));
        }
        other => panic!("{other:?}"),
    }
}

#[test]
fn current_state_lists_what_holds() {
    let mut g = KnowledgeGraph::default();
    run(&mut g, "record", r#"{ "typ": "entscheidung", "inhalt": "Wir nutzen Tauri 2", "begruendung": "damit wir eine Desktop-App haben" }"#);
    run(&mut g, "add_fact", r#"{ "frage": "Welche DB?", "wert": "SQLite", "inhalt": "Wir verwenden SQLite", "begruendung": "aus dem Code" }"#);
    // The status is set by scoring, which comes before every read.
    g.nodes[0].status = "active".into();
    let (resp, changed) = run(&mut g, "current_state", "{}");
    assert!(resp.ok && !changed);
    match resp.data {
        Reply::State { decisions, open, answered } => {
            assert_eq!(decisions.len(), 1, "expected one active decision");
            assert_eq!(decisions[0].inhalt, "Wir nutzen Tauri 2");
            assert_eq!(open.len() + answered.len(), 1);
        }
        other => panic!("{other:?}"),
    }
}

#[test]
fn documents_are_listed_and_kept() {
    let q = Quelle { id: "a.md".into(), pfad: "a.md".into(), titel: "A".into(), art: "doc".into() };
    let mut g = KnowledgeGraph::default();
    let done = dispatch_store(&req("list_documents", "{}"), true, NONE, &mut g, vec![q.clone()]);
    assert!(matches!(done.answer, Answer::Ready(Reply::Documents { documents }) if documents == vec![q]));
}

#[test]
fn given_ids_date_and_numbers_are_used() {
    let mut g = KnowledgeGraph::default();
    let fresh = Fresh {
        node_id: "N".into(),
        frage_id: "Q".into(),
        datum: "2026-01-01T00:00:00+00:00".into(),
        edge_ids: vec![],
    };
    let numbers = Numbers { basis_score: Some(Score { bits: 0.25f64.to_bits() }), gewicht: None };
    let r = req("add_fact", r#"{ "frage": "f?", "wert": "w", "inhalt": "x", "begruendung": "y", "tags": ["t"] }"#);
    let done = dispatch_with(&r, true, numbers, &mut g, vec![], fresh);
    assert!(done.changed && done.save);
    assert_eq!(g.nodes[0].id, "N");
    assert_eq!(g.nodes[0].frage_id.as_deref(), Some("Q"));
    assert_eq!(g.nodes[0].datum, "2026-01-01T00:00:00+00:00");
    assert_eq!(f64::from_bits(g.nodes[0].basis_score.bits), 0.25);
    assert_eq!(g.nodes[0].tags, vec!["t"]);
    assert_eq!(g.fragen[0].id, "Q");
    let resp = finish(&g, done.answer);
    assert!(recorded(&resp).tags.is_empty(), "the reply shows the node as it was added");
}

#[test]
fn payload_readers_skip_what_does_not_fit() {
    let p: Json = parse_json(
        r#"{ "a": " x ", "b": "  ", "list": [" p ", "", 3, "q"], "quellen": "s.md", "tags": ["t"], "limit": 7, "typ": "fakt" }"#,
    )
    .unwrap();
    assert_eq!(nonempty(&p, "a").as_deref(), Some(" x "));
    assert_eq!(nonempty(&p, "b"), None);
    assert_eq!(nonempty(&p, "c"), None);
    assert_eq!(parse_str_array(&p, "list"), Some(vec!["p".to_string(), "q".to_string()]));
    assert_eq!(parse_str_array(&p, "none"), None);
    let f = parse_query_filter(&p);
    assert_eq!(f.limit, Some(7));
    assert_eq!(f.typ, Some(NodeType::Fact));
    assert_eq!(f.tags, vec!["t"]);
    assert_eq!(f.q, None);
    let listed = parse_json(r#"{ "quellen": ["s.md"] }"#).unwrap();
    assert_eq!(parse_quellen(&listed), Some(vec!["s.md".to_string()]));
}

#[test]
fn only_the_right_token_is_let_in() {
    assert!(matches!(authenticate(Ok(req("ping", "{}")), "t"), Admission::Handle(q) if q.op == "ping"));
    match authenticate(Ok(req("ping", "{}")), "WRONG-TOKEN") {
        Admission::Answer(a) => {
            assert!(!a.ok);
            assert_eq!(a.error.as_deref(), Some("unauthorized"));
        }
        other => panic!("{other:?}"),
    }
    match authenticate(Err("expected value at line 1 column 1".into()), "t") {
        Admission::Answer(a) => {
            assert!(!a.ok);
            assert_eq!(a.error.unwrap(), "bad request: expected value at line 1 column 1");
        }
        other => panic!("{other:?}"),
    }
}
