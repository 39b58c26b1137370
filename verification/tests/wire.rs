use knowledge_observer::ipc::{
    CompactEdge, CompactNode, Decision, Entity, Question, Reply,
};
use knowledge_observer::json::{parse_json, write_json};
use knowledge_observer::score::Score;
use knowledge_observer::store::lists::{
    edges_text, fragen_text, quellen_text, read_edges, read_fragen, read_quellen,
};
use knowledge_observer::store::model::{Edge, Frage, KnowledgeGraph, Node, NodeType, Quelle};
use knowledge_observer::wire::{reply_json, write_graph, Numerals};
use serde_json::Value;

fn sc(x: f64) -> Score {
    Score { bits: x.to_bits() }
}

fn numerals() -> Numerals {
    let list = [(0.5, "0.5"), (1.0, "1.0"), (0.25, "0.25")];
    Numerals { list: list.map(|(x, t)| (sc(x), t.to_string())).to_vec() }
}

fn node() -> Node {
    Node {
        id: "n".into(),
        typ: NodeType::Fact,
        inhalt: "says \"x\"".into(),
        begruendung: "why".into(),
        datum: "d".into(),
        basis_score: sc(1.0),
        score: sc(0.5),
        status: "supported".into(),
        herkunft: "session".into(),
        frage_id: None,
        wert: None,
        quelle_ids: vec![],
        session_id: None,
        tags: vec![],
        ueberholt: false,
        erledigt: false,
    }
}

fn edge(id: &str, gewicht: f64) -> Edge {
    Edge {
        id: id.into(),
        von: "a".into(),
        zu: "b".into(),
        polaritaet: "supports".into(),
        gewicht: sc(gewicht),
    }
}

fn text(reply: Reply) -> String {
    write_json(reply_json(&numerals(), &reply))
}

#[test]
fn replies_are_written_under_their_keys() {
    assert_eq!(text(Reply::Nothing), "null");
    assert_eq!(
        text(Reply::Pong { project: "/p".into() }),
        r#"{"pong":true,"project":"/p","via":"knowledge-observer"}"#
    );
    assert_eq!(text(Reply::Health { since: 42 }), r#"{"ok":true,"sessions":[],"since":42}"#);
    assert_eq!(text(Reply::Hint { hint: "h".into() }), r#"{"hint":"h"}"#);
    assert_eq!(text(Reply::Accepted { skipped: false }), r#"{"ok":true}"#);
    assert_eq!(text(Reply::Accepted { skipped: true }), r#"{"ok":true,"skipped":true}"#);
    let note = r#""note":"change-event stream wired when the GUI consumes it (Schritt 6)""#;
    assert_eq!(text(Reply::NotSubscribed), format!(r#"{{{note},"ok":true,"subscribed":false}}"#));
    let documents = vec![Quelle { id: "i".into(), pfad: "p".into(), titel: "t".into(), art: "a".into() }];
    assert_eq!(
        text(Reply::Documents { documents }),
        r#"{"documents":[{"art":"a","id":"i","pfad":"p","titel":"t"}]}"#
    );
}

#[test]
fn the_state_is_written_with_both_keys_of_its_decisions() {
    let question = |fuehrend: Option<&str>| Question {
        id: "q".into(),
        frage: "?".into(),
        werte: vec!["w".into()],
        fuehrend: fuehrend.map(str::to_string),
    };
    let reply = Reply::State {
        decisions: vec![Decision { id: "d".into(), inhalt: "do".into(), tags: vec![] }],
        open: vec![question(None)],
        answered: vec![question(Some("w"))],
    };
    let v: Value = serde_json::from_str(&text(reply)).unwrap();
    assert_eq!(v["aktive_entscheidungen"], v["active_decisions"]);
    assert_eq!(v["active_decisions"].to_string(), r#"[{"id":"d","inhalt":"do","tags":[]}]"#);
    assert_eq!(v["offene_fragen"].to_string(), r#"[{"frage":"?","fuehrend":null,"id":"q","werte":["w"]}]"#);
    assert_eq!(v["beantwortete_fragen"][0]["fuehrend"], Value::from("w"));
}

#[test]
fn what_a_node_does_not_have_is_left_out() {
    let bare = r#"{"basis_score":1.0,"begruendung":"why","datum":"d","herkunft":"session","id":"n","inhalt":"says \"x\"","score":0.5,"status":"supported","typ":"fact"}"#;
    let recorded = Reply::Recorded { entity: Entity::Node(node()), hints: vec![], links: vec![] };
    assert_eq!(text(recorded), format!(r#"{{"hints":[],"recorded":{bare}}}"#));
    let mut full = node();
    full.frage_id = Some("q".into());
    full.wert = Some("w".into());
    full.quelle_ids = vec!["d.md".into()];
    full.session_id = Some("s".into());
    full.tags = vec!["t".into()];
    full.ueberholt = true;
    full.erledigt = true;
    let reply = Reply::Duplicate { node: full, duplicate_of: "n".into(), hints: vec!["h".into()] };
    let v: Value = serde_json::from_str(&text(reply)).unwrap();
    assert_eq!(v["duplicate_of"], Value::from("n"));
    assert!(v["note"].as_str().unwrap().starts_with("already recorded (same statement) —"));
    let r = &v["recorded"];
    assert_eq!((&r["ueberholt"], &r["erledigt"]), (&Value::Bool(true), &Value::Bool(true)));
    assert_eq!((&r["frage_id"], &r["wert"], &r["session_id"]), (&Value::from("q"), &Value::from("w"), &Value::from("s")));
    assert_eq!((r["tags"].to_string(), r["quelle_ids"].to_string()), (r#"["t"]"#.into(), r#"["d.md"]"#.into()));
}

#[test]
fn an_edge_and_its_links_are_written() {
    let reply = Reply::Recorded {
        entity: Entity::Edge(edge("e", 0.25)),
        hints: vec![],
        links: vec!["linked".into()],
    };
    assert_eq!(
        text(reply),
        r#"{"hints":[],"links":["linked"],"recorded":{"gewicht":0.25,"id":"e","polaritaet":"supports","von":"a","zu":"b"}}"#
    );
}

#[test]
fn the_overview_and_a_graph_are_written() {
    let nodes = vec![CompactNode {
        id: "n".into(),
        typ: NodeType::Decision,
        status: "active".into(),
        score: sc(f64::NAN),
        titel: "t".into(),
        tags: vec!["x".into()],
        wert: None,
    }];
    let edges = vec![CompactEdge { von: "a".into(), zu: "b".into(), polaritaet: "supports".into() }];
    let reply = Reply::Overview { nodes, edges, fragen: vec![], hints: vec!["h".into()] };
    assert_eq!(
        text(reply),
        r#"{"edges":[{"polaritaet":"supports","von":"a","zu":"b"}],"fragen":[],"hints":["h"],"nodes":[{"id":"n","score":null,"status":"active","tags":["x"],"titel":"t","typ":"decision"}]}"#
    );
    let empty = KnowledgeGraph::default();
    let wanted = r#"{"edges":[],"fragen":[],"nodes":[],"quellen":[]}"#;
    assert_eq!(write_json(write_graph(&numerals(), &empty)), wanted);
    assert_eq!(text(Reply::Subgraph { graph: empty }), wanted);
}

#[test]
fn saved_lists_are_read_back_in_order() {
    let edges = vec![edge("e1", 0.25), edge("e2", 1.0)];
    let saved = edges_text(&numerals(), &edges);
    assert!(saved.starts_with("[\n  {\n"), "{saved}");
    let read = read_edges(&saved);
    assert_eq!(read.len(), 2);
    for (got, want) in read.iter().zip(&edges) {
        assert_eq!((&got.edge.id, &got.edge.von, &got.edge.zu), (&want.id, &want.von, &want.zu));
        assert_eq!(got.edge.polaritaet, want.polaritaet);
        assert_eq!(sc(got.gewicht.parse().unwrap()), want.gewicht);
    }
    let fragen = vec![Frage { id: "f".into(), inhalt: "which?\n".into(), werte: vec!["ä".into(), "".into()] }];
    let read = read_fragen(&fragen_text(&fragen));
    assert_eq!((read.len(), &read[0].inhalt, &read[0].werte), (1, &fragen[0].inhalt, &fragen[0].werte));
    let quellen = vec![Quelle { id: "i".into(), pfad: "p".into(), titel: "t".into(), art: "a".into() }];
    let read = read_quellen(&quellen_text(&quellen));
    assert_eq!((read.len(), &read[0].pfad, &read[0].art), (1, &quellen[0].pfad, &quellen[0].art));
    assert!(read_edges(&edges_text(&numerals(), &vec![])).is_empty());
}

#[test]
fn a_damaged_list_is_empty() {
    let good = r#"{"id":"e","von":"a","zu":"b","polaritaet":"supports","gewicht":1}"#;
    assert_eq!(read_edges(&format!("[{good}]")).len(), 1);
    let positional = r#"["e","a","b","supports",0.5]"#;
    assert_eq!(read_edges(&format!("[{good},{positional}]"))[1].gewicht, "0.5");
    for bad in [
        "",
        "{}",
        "[1]",
        r#"[{"id":"e","von":"a","zu":"b","polaritaet":"supports"}]"#,
        r#"[{"id":"e","von":"a","zu":"b","polaritaet":"supports","gewicht":null}]"#,
    ] {
        assert!(read_edges(bad).is_empty(), "{bad}");
    }
    assert!(read_edges(&format!("[{good},7]")).is_empty());
    assert_eq!(read_fragen(r#"[{"id":"f","inhalt":"?"}]"#)[0].werte.len(), 0);
    assert!(read_fragen(r#"[{"id":"f"}]"#).is_empty());
    assert!(read_quellen(r#"[{"id":"f"}]"#).is_empty());
    assert!(parse_json("[").is_none());
}
