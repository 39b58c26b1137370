//! The operations that change the graph. They leave scores and statuses to the
//! scoring that follows every change.

use vstd::prelude::*;
use vstd::string::StringExecFns;

use crate::error::Error;
use crate::record::opt_texts;
use crate::score::Score;
use crate::seqs::{lemma_filter_len, lemma_filter_map, retain_items, Test};
use crate::store::cycles::{reaches, would_cycle};
use crate::store::ids::{fresh_id, is_utc_date, is_uuid, now};
use crate::store::model::{
    frage_views, node_views, quelle_views, Edge, EdgeView, Frage, FrageView, GraphView,
    KnowledgeGraph, Node, NodeType, NodeView, Quelle,
};
use crate::text;
use crate::text::{lowercase, opt_text, texts, trimmed};

verus! {

/// A refusal that names what it is about.
pub(crate) fn refusal(prefix: &str, subject: &str) -> (r: Error)
    ensures
        r is Msg,
        r.text() == prefix@ + subject@,
{
    Error::Msg(prefix.to_owned().concat(subject))
}

/// The outcome is a refusal with the given text.
pub open spec fn refused(e: Error, text: Seq<char>) -> bool {
    e is Msg && e.text() == text
}

// ---- nodes ----

/// A node as it is first recorded.
pub open spec fn new_node(
    id: Seq<char>,
    datum: Seq<char>,
    typ: NodeType,
    inhalt: Seq<char>,
    begruendung: Seq<char>,
    basis_score: Option<Score>,
    herkunft: Seq<char>,
    frage_id: Option<Seq<char>>,
    wert: Option<Seq<char>>,
) -> NodeView {
    NodeView {
        id,
        typ,
        inhalt,
        begruendung,
        datum,
        basis_score: match basis_score {
            Some(s) => s,
            None => typ.basis(),
        },
        score: Score { bits: 0 },
        status: Seq::empty(),
        herkunft,
        frage_id,
        wert,
        quelle_ids: Seq::empty(),
        session_id: None,
        tags: Seq::empty(),
        ueberholt: false,
        erledigt: false,
    }
}

/// Records a node under a given id and date.
pub fn insert_node(
    graph: &mut KnowledgeGraph,
    id: String,
    datum: String,
    typ: NodeType,
    inhalt: String,
    begruendung: &str,
    basis_score: Option<Score>,
    herkunft: &str,
    frage_id: Option<String>,
    wert: Option<String>,
) -> (r: Node)
    ensures
        r@ == new_node(
            id@,
            datum@,
            typ,
            inhalt@,
            begruendung@,
            basis_score,
            herkunft@,
            opt_text(frage_id),
            opt_text(wert),
        ),
        final(graph)@ == (GraphView { nodes: old(graph)@.nodes.push(r@), ..old(graph)@ }),
{
    let ghost before = graph@;
    let basis: Score = match basis_score {
        Some(s) => s,
        None => typ.default_basis_score(),
    };
    let node = Node {
        id,
        typ,
        inhalt,
        begruendung: begruendung.to_owned(),
        datum,
        basis_score: basis,
        score: Score { bits: 0 },
        status: String::new(),
        herkunft: herkunft.to_owned(),
        frage_id,
        wert,
        quelle_ids: Vec::new(),
        session_id: None,
        tags: Vec::new(),
        ueberholt: false,
        erledigt: false,
    };
    assert(texts(node.quelle_ids@) =~= Seq::empty());
    assert(texts(node.tags@) =~= Seq::empty());
    let r: Node = node.copy();
    graph.nodes.push(node);
    assert(graph@ =~= (GraphView { nodes: before.nodes.push(r@), ..before }));
    r
}

/// Records a standalone node. The id is fresh and the date is now; a missing score
/// is the type's own.
pub fn add_node(
    graph: &mut KnowledgeGraph,
    typ: NodeType,
    inhalt: String,
    begruendung: &str,
    basis_score: Option<Score>,
    herkunft: &str,
) -> (r: Node)
    ensures
        is_uuid(r@.id),
        is_utc_date(r@.datum),
        r@ == new_node(
            r@.id,
            r@.datum,
            typ,
            inhalt@,
            begruendung@,
            basis_score,
            herkunft@,
            None,
            None,
        ),
        final(graph)@ == (GraphView { nodes: old(graph)@.nodes.push(r@), ..old(graph)@ }),
{
    insert_node(
        graph,
        fresh_id(),
        now(),
        typ,
        inhalt,
        begruendung,
        basis_score,
        herkunft,
        None,
        None,
    )
}

/// The first question with a text.
pub open spec fn question_by_text(fragen: Seq<FrageView>, inhalt: Seq<char>, from: int) -> Option<
    int,
>
    decreases fragen.len() - from,
{
    if from < 0 || from >= fragen.len() {
        None
    } else if fragen[from].inhalt == inhalt {
        Some(from)
    } else {
        question_by_text(fragen, inhalt, from + 1)
    }
}

/// The first question with an id.
pub open spec fn question_by_id(fragen: Seq<FrageView>, id: Seq<char>, from: int) -> Option<int>
    decreases fragen.len() - from,
{
    if from < 0 || from >= fragen.len() {
        None
    } else if fragen[from].id == id {
        Some(from)
    } else {
        question_by_id(fragen, id, from + 1)
    }
}

/// The id of the question with a text; `fresh` where there is none yet.
pub open spec fn question_id(
    fragen: Seq<FrageView>,
    inhalt: Seq<char>,
    fresh: Seq<char>,
) -> Seq<char> {
    match question_by_text(fragen, inhalt, 0) {
        Some(i) => fragen[i].id,
        None => fresh,
    }
}

/// The questions with one for the text among them.
pub open spec fn with_question(
    fragen: Seq<FrageView>,
    inhalt: Seq<char>,
    fresh: Seq<char>,
) -> Seq<FrageView> {
    match question_by_text(fragen, inhalt, 0) {
        Some(_) => fragen,
        None => fragen.push(FrageView { id: fresh, inhalt, werte: Seq::empty() }),
    }
}

/// The questions with a value registered at the first one with an id.
pub open spec fn with_value(fragen: Seq<FrageView>, id: Seq<char>, wert: Seq<char>) -> Seq<
    FrageView,
> {
    match question_by_id(fragen, id, 0) {
        Some(i) => if fragen[i].werte.contains(wert) {
            fragen
        } else {
            fragen.update(i, FrageView { werte: fragen[i].werte.push(wert), ..fragen[i] })
        },
        None => fragen,
    }
}

fn find_question(fragen: &Vec<Frage>, inhalt: &str) -> (r: Option<usize>)
    ensures
        match r {
            Some(i) => i < fragen.len() && question_by_text(frage_views(fragen@), inhalt@, 0)
                == Some(i as int),
            None => question_by_text(frage_views(fragen@), inhalt@, 0) is None,
        },
{
    let mut i: usize = 0;
    while i < fragen.len()
        invariant
            i <= fragen.len(),
            question_by_text(frage_views(fragen@), inhalt@, 0) == question_by_text(
                frage_views(fragen@),
                inhalt@,
                i as int,
            ),
        decreases fragen.len() - i,
    {
        assert(frage_views(fragen@)[i as int] == fragen@[i as int]@);
        if text::same(&fragen[i].inhalt, inhalt) {
            return Some(i);
        }
        i += 1;
    }
    None
}

fn find_question_id(fragen: &Vec<Frage>, id: &str) -> (r: Option<usize>)
    ensures
        match r {
            Some(i) => i < fragen.len() && question_by_id(frage_views(fragen@), id@, 0) == Some(
                i as int,
            ),
            None => question_by_id(frage_views(fragen@), id@, 0) is None,
        },
{
    let mut i: usize = 0;
    while i < fragen.len()
        invariant
            i <= fragen.len(),
            question_by_id(frage_views(fragen@), id@, 0) == question_by_id(
                frage_views(fragen@),
                id@,
                i as int,
            ),
        decreases fragen.len() - i,
    {
        assert(frage_views(fragen@)[i as int] == fragen@[i as int]@);
        if text::same(&fragen[i].id, id) {
            return Some(i);
        }
        i += 1;
    }
    None
}

/// Finds the question with a text, or creates it under `fresh`, and registers the
/// value on it. Gives the question's id.
pub fn register_value(
    graph: &mut KnowledgeGraph,
    frage_inhalt: &str,
    wert: &str,
    fresh: String,
) -> (r: String)
    ensures
        r@ == question_id(old(graph)@.fragen, frage_inhalt@, fresh@),
        final(graph)@ == (GraphView {
            fragen: with_value(
                with_question(old(graph)@.fragen, frage_inhalt@, fresh@),
                r@,
                wert@,
            ),
            ..old(graph)@
        }),
{
    let ghost before = graph@;
    let frage_id: String = match find_question(&graph.fragen, frage_inhalt) {
        Some(i) => graph.fragen[i].id.clone(),
        None => {
            let id: String = fresh.clone();
            let f = Frage { id: fresh, inhalt: frage_inhalt.to_owned(), werte: Vec::new() };
            assert(texts(f.werte@) =~= Seq::empty());
            graph.fragen.push(f);
            assert(graph@.fragen =~= with_question(before.fragen, frage_inhalt@, fresh@));
            id
        },
    };
    let ghost mid = graph@.fragen;
    if let Some(i) = find_question_id(&graph.fragen, &frage_id) {
        let value: String = wert.to_owned();
        if !text::one_of(&value, &graph.fragen[i].werte) {
            let mut f: Frage = graph.fragen.remove(i);
            let ghost werte = f.werte@;
            f.werte.push(value);
            assert(texts(f.werte@) =~= texts(werte).push(wert@));
            graph.fragen.insert(i, f);
            assert(graph@.fragen =~= with_value(mid, frage_id@, wert@));
        }
    }
    assert(graph@ =~= (GraphView { fragen: with_value(mid, frage_id@, wert@), ..before }));
    frage_id
}

/// The graph with a fact recorded: a value of a question, which is created under
/// `frage_id` where it is new.
pub open spec fn with_fact(
    g: GraphView,
    frage_id: Seq<char>,
    node_id: Seq<char>,
    datum: Seq<char>,
    frage: Seq<char>,
    wert: Seq<char>,
    inhalt: Seq<char>,
    begruendung: Seq<char>,
    basis_score: Option<Score>,
    herkunft: Seq<char>,
) -> GraphView {
    let qid = question_id(g.fragen, frage, frage_id);
    GraphView {
        nodes: g.nodes.push(
            new_node(
                node_id,
                datum,
                NodeType::Fact,
                inhalt,
                begruendung,
                basis_score,
                herkunft,
                Some(qid),
                Some(wert),
            ),
        ),
        fragen: with_value(with_question(g.fragen, frage, frage_id), qid, wert),
        ..g
    }
}

/// Records a fact under given ids and a given date.
pub fn insert_fact(
    graph: &mut KnowledgeGraph,
    frage_id: String,
    node_id: String,
    datum: String,
    frage_inhalt: &str,
    wert: &str,
    inhalt: String,
    begruendung: &str,
    basis_score: Option<Score>,
    herkunft: &str,
) -> (r: Node)
    ensures
        final(graph)@ == with_fact(
            old(graph)@,
            frage_id@,
            node_id@,
            datum@,
            frage_inhalt@,
            wert@,
            inhalt@,
            begruendung@,
            basis_score,
            herkunft@,
        ),
        r@ == final(graph)@.nodes.last(),
{
    let qid: String = register_value(graph, frage_inhalt, wert, frage_id);
    insert_node(
        graph,
        node_id,
        datum,
        NodeType::Fact,
        inhalt,
        begruendung,
        basis_score,
        herkunft,
        Some(qid),
        Some(wert.to_owned()),
    )
}

/// Records a fact: a value of a question, which is created where it is new. The ids are
/// fresh and the date is now.
pub fn add_fact(
    graph: &mut KnowledgeGraph,
    frage_inhalt: &str,
    wert: &str,
    inhalt: String,
    begruendung: &str,
    basis_score: Option<Score>,
    herkunft: &str,
) -> (r: Node)
    ensures
        is_uuid(r@.id),
        is_utc_date(r@.datum),
        exists|frage_id: Seq<char>|
            #[trigger] is_uuid(frage_id) && final(graph)@ == with_fact(
                old(graph)@,
                frage_id,
                r@.id,
                r@.datum,
                frage_inhalt@,
                wert@,
                inhalt@,
                begruendung@,
                basis_score,
                herkunft@,
            ),
        r@ == final(graph)@.nodes.last(),
{
    let fresh: String = fresh_id();
    assert(is_uuid(fresh@));
    insert_fact(
        graph,
        fresh,
        fresh_id(),
        now(),
        frage_inhalt,
        wert,
        inhalt,
        begruendung,
        basis_score,
        herkunft,
    )
}

/// A node with the given fields changed.
pub open spec fn patched(
    n: NodeView,
    inhalt: Option<Seq<char>>,
    begruendung: Option<Seq<char>>,
    typ: Option<NodeType>,
    basis_score: Option<Score>,
    quelle_ids: Option<Seq<Seq<char>>>,
    tags: Option<Seq<Seq<char>>>,
    ueberholt: Option<bool>,
    erledigt: Option<bool>,
) -> NodeView {
    NodeView {
        inhalt: inhalt.unwrap_or(n.inhalt),
        begruendung: begruendung.unwrap_or(n.begruendung),
        typ: typ.unwrap_or(n.typ),
        basis_score: basis_score.unwrap_or(n.basis_score),
        quelle_ids: quelle_ids.unwrap_or(n.quelle_ids),
        tags: tags.unwrap_or(n.tags),
        ueberholt: ueberholt.unwrap_or(n.ueberholt),
        erledigt: erledigt.unwrap_or(n.erledigt),
        ..n
    }
}

/// A node set in place of another.
pub open spec fn with_node_at(g: GraphView, i: int, n: NodeView) -> GraphView {
    GraphView { nodes: g.nodes.update(i, n), ..g }
}

/// Changes the given fields of the first node with an id; the others stay.
pub fn update_node(
    graph: &mut KnowledgeGraph,
    node_id: &str,
    inhalt: Option<String>,
    begruendung: Option<String>,
    typ: Option<NodeType>,
    basis_score: Option<Score>,
    quelle_ids: Option<Vec<String>>,
    tags: Option<Vec<String>>,
    ueberholt: Option<bool>,
    erledigt: Option<bool>,
) -> (r: Result<Node, Error>)
    ensures
        match old(graph)@.position(node_id@) {
            Some(i) => {
                &&& r matches Ok(n) && n@ == patched(
                    old(graph)@.nodes[i],
                    opt_text(inhalt),
                    opt_text(begruendung),
                    typ,
                    basis_score,
                    opt_texts(quelle_ids),
                    opt_texts(tags),
                    ueberholt,
                    erledigt,
                )
                &&& final(graph)@ == with_node_at(old(graph)@, i, r->Ok_0@)
            },
            None => {
                &&& r matches Err(e) && refused(e, "node not found: "@ + node_id@)
                &&& final(graph)@ == old(graph)@
            },
        },
{
    let ghost before = graph@;
    let i: usize = match graph.find_node(node_id) {
        Some(i) => i,
        None => return Err(refusal("node not found: ", node_id)),
    };
    let mut n: Node = graph.nodes.remove(i);
    assert(n@ == before.nodes[i as int]);
    if let Some(x) = inhalt {
        n.inhalt = x;
    }
    if let Some(x) = begruendung {
        n.begruendung = x;
    }
    if let Some(x) = typ {
        n.typ = x;
    }
    if let Some(x) = basis_score {
        n.basis_score = x;
    }
    if let Some(x) = quelle_ids {
        n.quelle_ids = x;
    }
    if let Some(x) = tags {
        n.tags = x;
    }
    if let Some(x) = ueberholt {
        n.ueberholt = x;
    }
    if let Some(x) = erledigt {
        n.erledigt = x;
    }
    let r: Node = n.copy();
    graph.nodes.insert(i, n);
    assert(graph@ =~= with_node_at(before, i as int, r@));
    Ok(r)
}

/// Passes the nodes with another id.
struct OtherNode<'a> {
    id: &'a str,
}

impl<'a> Test<Node> for OtherNode<'a> {
    closed spec fn passes(&self, n: Node) -> bool {
        n.id@ != self.id@
    }

    fn test(&self, n: &Node) -> (b: bool) {
        !text::same(&n.id, self.id)
    }
}

/// Passes the edges that do not touch a node.
struct AwayFrom<'a> {
    id: &'a str,
}

impl<'a> Test<Edge> for AwayFrom<'a> {
    closed spec fn passes(&self, e: Edge) -> bool {
        e.von@ != self.id@ && e.zu@ != self.id@
    }

    fn test(&self, e: &Edge) -> (b: bool) {
        !text::same(&e.von, self.id) && !text::same(&e.zu, self.id)
    }
}

/// Passes the edges with another id.
struct OtherEdge<'a> {
    id: &'a str,
}

impl<'a> Test<Edge> for OtherEdge<'a> {
    closed spec fn passes(&self, e: Edge) -> bool {
        e.id@ != self.id@
    }

    fn test(&self, e: &Edge) -> (b: bool) {
        !text::same(&e.id, self.id)
    }
}

/// The graph without the nodes that have an id, and without the edges that touch it.
pub open spec fn without_node(g: GraphView, id: Seq<char>) -> GraphView {
    GraphView {
        nodes: g.nodes.filter(|n: NodeView| n.id != id),
        edges: g.edges.filter(|e: EdgeView| e.von != id && e.zu != id),
        ..g
    }
}

pub(crate) fn drop_nodes(nodes: &mut Vec<Node>, id: &str)
    ensures
        node_views(final(nodes)@) == node_views(old(nodes)@).filter(|n: NodeView| n.id != id@),
{
    let keep = OtherNode { id };
    proof {
        lemma_filter_map(
            nodes@,
            |n: Node| n@,
            |n: Node| keep.passes(n),
            |n: NodeView| n.id != id@,
        );
    }
    retain_items(nodes, &keep);
}

/// Deletes a node and every edge that touches it.
pub fn delete_node(graph: &mut KnowledgeGraph, node_id: &str) -> (r: Result<(), Error>)
    ensures
        old(graph)@.has_node(node_id@) ==> r is Ok && final(graph)@ == without_node(
            old(graph)@,
            node_id@,
        ),
        !old(graph)@.has_node(node_id@) ==> final(graph)@ == old(graph)@ && (r matches Err(e)
            && refused(e, "node not found: "@ + node_id@)),
{
    let ghost before = graph@;
    if graph.find_node(node_id).is_none() {
        return Err(refusal("node not found: ", node_id));
    }
    drop_nodes(&mut graph.nodes, node_id);
    let keep = AwayFrom { id: node_id };
    proof {
        lemma_filter_map(
            graph.edges@,
            |e: Edge| e@,
            |e: Edge| keep.passes(e),
            |e: EdgeView| e.von != node_id@ && e.zu != node_id@,
        );
    }
    retain_items(&mut graph.edges, &keep);
    assert(graph@ =~= without_node(before, node_id@));
    Ok(())
}

/// The graph without the edges that have an id.
pub open spec fn without_edge(g: GraphView, id: Seq<char>) -> GraphView {
    GraphView { edges: g.edges.filter(|e: EdgeView| e.id != id), ..g }
}

/// Some edge has the id.
pub open spec fn has_edge(g: GraphView, id: Seq<char>) -> bool {
    exists|i: int| 0 <= i < g.edges.len() && (#[trigger] g.edges[i]).id == id
}

/// Deletes an edge.
pub fn delete_edge(graph: &mut KnowledgeGraph, edge_id: &str) -> (r: Result<(), Error>)
    ensures
        has_edge(old(graph)@, edge_id@) ==> r is Ok && final(graph)@ == without_edge(
            old(graph)@,
            edge_id@,
        ),
        !has_edge(old(graph)@, edge_id@) ==> final(graph)@ == old(graph)@ && (r matches Err(e)
            && refused(e, "edge not found: "@ + edge_id@)),
{
    let ghost before = graph@;
    let len: usize = graph.edges.len();
    let keep = OtherEdge { id: edge_id };
    let ghost p = |e: Edge| keep.passes(e);
    let ghost q = |e: EdgeView| e.id != edge_id@;
    proof {
        lemma_filter_map(graph.edges@, |e: Edge| e@, p, q);
        lemma_filter_len(before.edges, q);
    }
    retain_items(&mut graph.edges, &keep);
    assert(graph@ =~= without_edge(before, edge_id@));
    if graph.edges.len() == len {
        proof {
            assert(graph@.edges.len() == before.edges.len());
            assert(graph@ =~= before);
            assert forall|i: int| 0 <= i < before.edges.len() implies (#[trigger] before.edges[i]).id
                != edge_id@ by {
                assert(q(before.edges[i]));
            }
        }
        return Err(refusal("edge not found: ", edge_id));
    }
    proof {
        let k = choose|k: int| 0 <= k < before.edges.len() && !q(#[trigger] before.edges[k]);
        assert(before.edges[k].id == edge_id@);
    }
    Ok(())
}

// ---- edges ----

/// The canonical polarity that a lower-case code names.
pub open spec fn polarity_of(code: Seq<char>) -> Option<Seq<char>> {
    if code == "supports"@ || code == "stuetzt"@ || code == "stützt"@ || code == "+"@ || code
        == "pro"@ {
        Some("supports"@)
    } else if code == "contradicts"@ || code == "widerspricht"@ || code == "-"@ || code
        == "contra"@ || code == "con"@ {
        Some("contradicts"@)
    } else if code == "replaces"@ || code == "supersedes"@ || code == "ersetzt"@ || code
        == "überholt"@ || code == "ueberholt"@ {
        Some("replaces"@)
    } else {
        None
    }
}

/// The refusal of an unknown polarity.
pub open spec fn polarity_refusal(code: Seq<char>) -> Seq<char> {
    "invalid polaritaet '"@ + code + "' (use 'supports', 'contradicts' or 'replaces')"@
}

/// The canonical polarity for a lower-case code.
pub fn polarity_from_code(code: &str) -> (r: Result<String, Error>)
    ensures
        match polarity_of(code@) {
            Some(p) => r matches Ok(s) && s@ == p,
            None => r matches Err(e) && refused(e, polarity_refusal(code@)),
        },
{
    if text::same(code, "supports") || text::same(code, "stuetzt") || text::same(code, "stützt")
        || text::same(code, "+") || text::same(code, "pro") {
        Ok("supports".to_owned())
    } else if text::same(code, "contradicts") || text::same(code, "widerspricht") || text::same(
        code,
        "-",
    ) || text::same(code, "contra") || text::same(code, "con") {
        Ok("contradicts".to_owned())
    } else if text::same(code, "replaces") || text::same(code, "supersedes") || text::same(
        code,
        "ersetzt",
    ) || text::same(code, "überholt") || text::same(code, "ueberholt") {
        Ok("replaces".to_owned())
    } else {
        Err(
            Error::Msg(
                "invalid polaritaet '".to_owned().concat(code).concat(
                    "' (use 'supports', 'contradicts' or 'replaces')",
                ),
            ),
        )
    }
}

/// The canonical polarity for an input: white space around it and capital letters do
/// not matter.
pub fn normalize_polaritaet(p: &str) -> (r: Result<String, Error>)
    ensures
        match polarity_of(lowercase(trimmed(p@))) {
            Some(c) => r matches Ok(s) && s@ == c,
            None => r matches Err(e) && refused(e, polarity_refusal(lowercase(trimmed(p@)))),
        },
{
    let t: String = text::trim(p);
    polarity_from_code(&text::to_lowercase(&t))
}

/// Why an edge is refused, if it is: an end is missing, it would close a cycle, or
/// its polarity is unknown.
pub open spec fn edge_refusal(
    g: GraphView,
    von: Seq<char>,
    zu: Seq<char>,
    polaritaet: Seq<char>,
) -> Option<Seq<char>> {
    if !g.has_node(von) {
        Some("node not found: "@ + von)
    } else if !g.has_node(zu) {
        Some("node not found: "@ + zu)
    } else if reaches(g.edges, zu, von) {
        Some("edge would create a cycle (graph must stay a DAG)"@)
    } else if polarity_of(lowercase(trimmed(polaritaet))) is None {
        Some(polarity_refusal(lowercase(trimmed(polaritaet))))
    } else {
        None
    }
}

/// The edge that is added: with the canonical polarity; a missing weight is 1.
pub open spec fn new_edge(
    id: Seq<char>,
    von: Seq<char>,
    zu: Seq<char>,
    polaritaet: Seq<char>,
    gewicht: Option<Score>,
) -> EdgeView {
    EdgeView {
        id,
        von,
        zu,
        polaritaet: polarity_of(lowercase(trimmed(polaritaet)))->0,
        gewicht: gewicht.unwrap_or(Score { bits: crate::score::ONE }),
    }
}

/// The graph with one more edge, unless the edge is refused.
pub open spec fn with_edge(
    g: GraphView,
    id: Seq<char>,
    von: Seq<char>,
    zu: Seq<char>,
    polaritaet: Seq<char>,
    gewicht: Option<Score>,
) -> GraphView {
    if edge_refusal(g, von, zu, polaritaet) is None {
        GraphView { edges: g.edges.push(new_edge(id, von, zu, polaritaet, gewicht)), ..g }
    } else {
        g
    }
}

/// Adds an edge between two nodes of the graph under a given id.
pub fn insert_edge(
    graph: &mut KnowledgeGraph,
    id: String,
    von: &str,
    zu: &str,
    polaritaet: &str,
    gewicht: Option<Score>,
) -> (r: Result<Edge, Error>)
    ensures
        final(graph)@ == with_edge(old(graph)@, id@, von@, zu@, polaritaet@, gewicht),
        match edge_refusal(old(graph)@, von@, zu@, polaritaet@) {
            Some(text) => r matches Err(e) && refused(e, text),
            None => r matches Ok(e) && e@ == new_edge(id@, von@, zu@, polaritaet@, gewicht),
        },
{
    let ghost before = graph@;
    if graph.find_node(von).is_none() {
        return Err(refusal("node not found: ", von));
    }
    if graph.find_node(zu).is_none() {
        return Err(refusal("node not found: ", zu));
    }
    if would_cycle(&graph.edges, von, zu) {
        return Err(Error::Msg("edge would create a cycle (graph must stay a DAG)".to_owned()));
    }
    let pol: String = match normalize_polaritaet(polaritaet) {
        Ok(p) => p,
        Err(e) => return Err(e),
    };
    let edge = Edge {
        id,
        von: von.to_owned(),
        zu: zu.to_owned(),
        polaritaet: pol,
        gewicht: match gewicht {
            Some(g) => g,
            None => Score { bits: crate::score::ONE },
        },
    };
    let r: Edge = edge.copy();
    graph.edges.push(edge);
    assert(graph@ =~= (GraphView { edges: before.edges.push(r@), ..before }));
    Ok(r)
}

/// Adds an edge between two nodes of the graph. Its id is fresh; a missing weight is 1.
pub fn add_edge(
    graph: &mut KnowledgeGraph,
    von: &str,
    zu: &str,
    polaritaet: &str,
    gewicht: Option<Score>,
) -> (r: Result<Edge, Error>)
    ensures
        match edge_refusal(old(graph)@, von@, zu@, polaritaet@) {
            Some(text) => {
                &&& r matches Err(e) && refused(e, text)
                &&& final(graph)@ == old(graph)@
            },
            None => {
                &&& r matches Ok(e) && is_uuid(e@.id) && e@ == new_edge(
                    e@.id,
                    von@,
                    zu@,
                    polaritaet@,
                    gewicht,
                )
                &&& final(graph)@ == (GraphView {
                    edges: old(graph)@.edges.push(r->Ok_0@),
                    ..old(graph)@
                })
            },
        },
{
    insert_edge(graph, fresh_id(), von, zu, polaritaet, gewicht)
}

// ---- sources and origin ----

/// Replaces the list of documents.
pub fn set_quellen(graph: &mut KnowledgeGraph, quellen: Vec<Quelle>)
    ensures
        final(graph)@ == (GraphView { quellen: quelle_views(quellen@), ..old(graph)@ }),
{
    graph.quellen = quellen;
}

/// Stamps the session on the first node with an id. A missing node is left missing.
/// Tells whether there was something to stamp.
pub fn set_origin_session(graph: &mut KnowledgeGraph, node_id: &str, session_id: &str) -> (r: bool)
    ensures
        match old(graph)@.position(node_id@) {
            Some(i) => r && final(graph)@ == with_node_at(
                old(graph)@,
                i,
                NodeView { session_id: Some(session_id@), ..old(graph)@.nodes[i] },
            ),
            None => !r && final(graph)@ == old(graph)@,
        },
{
    let ghost before = graph@;
    match graph.find_node(node_id) {
        Some(i) => {
            let mut n: Node = graph.nodes.remove(i);
            assert(n@ == before.nodes[i as int]);
            n.session_id = Some(session_id.to_owned());
            graph.nodes.insert(i, n);
            assert(graph@ =~= with_node_at(
                before,
                i as int,
                NodeView { session_id: Some(session_id@), ..before.nodes[i as int] },
            ));
            true
        },
        None => false,
    }
}

} // verus!
