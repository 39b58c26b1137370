use knowledge_observer::dispatch::{dispatch_store, finish, Numbers};
use knowledge_observer::ipc::{IpcRequest, IpcResponse};
use knowledge_observer::json::parse_json;
use knowledge_observer::observer::apply::apply_ops_store;
use knowledge_observer::observer::contract::parse;
use knowledge_observer::observer::daemon::{after_run, plan_turn};
use knowledge_observer::observer::agent::OBS_MAX_TURNS;
use knowledge_observer::observer::tail::{new_lines, reconcile_watermark};
use knowledge_observer::score::Score;
use knowledge_observer::store::model::{Frage, KnowledgeGraph, Node, NodeType};
use knowledge_observer::store::observer_state::ObserverState;
use knowledge_observer::store::ops::{add_edge, add_node};
use knowledge_observer::store::state::{find_active_decisions, find_leading, judge_question};

fn run(g: &mut KnowledgeGraph, op: &str, payload: &str) -> IpcResponse {
    let req = IpcRequest {
        token: "".into(),
        project_dir: "/p".into(),
        op: op.into(),
        payload: parse_json(payload).unwrap(),
        session_id: "s".into(),
    };
    let done = dispatch_store(&req, true, Numbers { basis_score: None, gewicht: None }, g, vec![]);
    finish(g, done.answer)
}

fn joined(g: &KnowledgeGraph) -> bool {
    let has = |id: &str| g.nodes.iter().any(|n| n.id == id);
    g.edges.iter().all(|e| has(&e.von) && has(&e.zu))
}

fn acyclic(g: &KnowledgeGraph) -> bool {
    let mut left: Vec<(String, String)> =
        g.edges.iter().map(|e| (e.von.clone(), e.zu.clone())).collect();
    loop {
        let before = left.len();
        let ends: Vec<String> = left.iter().map(|e| e.0.clone()).collect();
        left.retain(|e| ends.contains(&e.1));
        if left.is_empty() {
            return true;
        }
        if left.len() == before {
            return false;
        }
    }
}

fn three() -> KnowledgeGraph {
    let mut g = KnowledgeGraph::default();
    for name in ["alpha", "beta", "gamma"] {
        add_node(&mut g, NodeType::Insight, name.into(), "why", None, "manual");
    }
    let ids: Vec<String> = g.nodes.iter().map(|n| n.id.clone()).collect();
    add_edge(&mut g, &ids[0], &ids[1], "supports", None).unwrap();
    add_edge(&mut g, &ids[1], &ids[2], "supports", None).unwrap();
    g
}

#[test]
fn a_request_that_would_close_a_cycle_is_refused() {
    let mut g = three();
    let resp = run(&mut g, "link", r#"{ "von": "gamma", "zu": "alpha", "polaritaet": "supports" }"#);
    assert_eq!(resp.error.unwrap(), "edge would create a cycle (graph must stay a DAG)");
    assert_eq!(g.edges.len(), 2);
    assert!(acyclic(&g) && joined(&g));
}

#[test]
fn whatever_is_answered_the_graph_stays_sound() {
    let mut g = three();
    let answer = parse(
        r#"{ "ops": [
            { "action": "link", "von": "gamma", "zu": "alpha", "polaritaet": "supports" },
            { "action": "add", "typ": "fact", "inhalt": "delta", "begruendung": "x",
              "links": [ { "ziel": "alpha", "als": "child" }, { "ziel": "gamma", "als": "parent" }, { "ziel": "nowhere" } ] },
            { "action": "merge", "from": "alpha", "into": "gamma" },
            { "action": "update", "id": "no such", "fields": { "ueberholt": true } },
            "no operation",
            { "action": "link", "von": "alpha", "zu": "gamma", "polaritaet": "contradicts" }
        ], "rolling_summary": "", "hint": "" }"#,
    );
    let changed = apply_ops_store(&mut g, "/p", "s", true, &vec![], &answer);
    assert_eq!(changed, 2);
    assert_eq!(g.nodes.len(), 4);
    assert!(acyclic(&g) && joined(&g), "{:?}", g.edges);
}

#[test]
fn a_merge_that_would_close_a_cycle_is_refused() {
    let mut g = three();
    let before = format!("{g:?}");
    let resp = run(&mut g, "merge", r#"{ "from": "alpha", "into": "gamma" }"#);
    assert_eq!(resp.error.unwrap(), "merge would create a cycle (graph must stay a DAG)");
    assert_eq!(format!("{g:?}"), before);
    let resp = run(&mut g, "merge", r#"{ "from": "alpha", "into": "beta" }"#);
    assert!(resp.ok);
    assert_eq!((g.nodes.len(), g.edges.len()), (2, 1));
    assert!(acyclic(&g) && joined(&g));
}

#[test]
fn reading_in_two_steps_loses_no_line() {
    let text = "one\ntwo\r\nthree\nfour";
    let whole = new_lines(text.as_bytes(), 0);
    for cut in 0..=text.len() {
        let (mut lines, mark) = new_lines(&text.as_bytes()[..cut], 0);
        assert!(mark as usize <= cut);
        let (more, end) = new_lines(text.as_bytes(), mark);
        lines.extend(more);
        assert_eq!((lines, end), whole, "cut at {cut}");
    }
    assert_eq!(reconcile_watermark("a", 9, 20, "a"), 9);
}

#[test]
fn a_conversation_never_has_too_many_turns() {
    let mut state = ObserverState::default();
    let mut created = 0;
    for pass in 0..100u64 {
        let plan = plan_turn(&state, "T", "D", "G", &format!("sid-{pass}"));
        assert!(1 <= plan.turn_count && plan.turn_count <= OBS_MAX_TURNS);
        created += plan.is_first as u32;
        state = after_run(&state, "st", pass, &plan, Some("sum"), pass);
    }
    assert_eq!(created, 4);
}

fn answer(id: &str, wert: &str, status: &str, score: f64) -> Node {
    Node {
        id: id.into(),
        typ: NodeType::Fact,
        inhalt: wert.into(),
        begruendung: "".into(),
        datum: "".into(),
        basis_score: Score { bits: 0 },
        score: Score { bits: score.to_bits() },
        status: status.into(),
        herkunft: "manual".into(),
        frage_id: Some("q".into()),
        wert: Some(wert.into()),
        quelle_ids: vec![],
        session_id: None,
        tags: vec![],
        ueberholt: false,
        erledigt: false,
    }
}

#[test]
fn the_best_answer_leads_and_the_first_of_equals() {
    let frage = Frage { id: "q".into(), inhalt: "?".into(), werte: vec![] };
    let mut g = KnowledgeGraph {
        nodes: vec![
            answer("a", "x", "disputed", 0.3),
            answer("b", "y", "supported", 0.6),
            answer("c", "z", "supported", 0.6),
        ],
        fragen: vec![frage],
        ..Default::default()
    };
    assert_eq!(find_leading(&g, "q"), Some(1));
    assert_eq!(judge_question(&g, "q"), (Some("y".to_string()), true));
    g.nodes[0].score = Score { bits: 0.9f64.to_bits() };
    assert_eq!(judge_question(&g, "q"), (Some("x".to_string()), false));
    assert_eq!(judge_question(&g, "other"), (None, false));
    assert!(find_active_decisions(&g).is_empty());
}

#[test]
fn ids_are_fresh() {
    let g = three();
    assert_ne!(g.nodes[0].id, g.nodes[1].id);
    for n in &g.nodes {
        let groups: Vec<usize> = n.id.split('-').map(str::len).collect();
        assert_eq!(groups, vec![8, 4, 4, 4, 12], "{}", n.id);
        assert!(n.id.chars().all(|c| c == '-' || c.is_ascii_hexdigit()));
        assert!(n.datum.as_str() > "2020-01-01T00:00:00+00:00", "{}", n.datum);
    }
}
