//! Finding nodes by what they say.

use vstd::prelude::*;
use vstd::slice::slice_subrange;
use vstd::string::StringExecFns;

use crate::seqs::lemma_filter_push;
use crate::store::model::{node_views, GraphView, KnowledgeGraph, Node, NodeType, NodeView};
use crate::text;
use crate::text::{joined, lowercase, occurs, texts, trim_front, trimmed, white};

verus! {

/// The nodes whose statement holds a text, in either case.
pub open spec fn holding(g: GraphView, t: Seq<char>) -> Seq<NodeView> {
    g.nodes.filter(|n: NodeView| occurs(lowercase(n.inhalt), lowercase(t)))
}

/// How an ambiguous reference lists a candidate.
pub open spec fn candidate(n: NodeView) -> Seq<char> {
    n.id + " ('"@ + text::clipped(n.inhalt, 40) + "…')"@
}

/// What a reference stands for: a node's id, or the refusal.
pub open spec fn resolved(g: GraphView, r: Seq<char>) -> Result<Seq<char>, Seq<char>> {
    let t = trimmed(r);
    let found = holding(g, t);
    if g.has_node(t) {
        Ok(t)
    } else if found.len() == 1 {
        Ok(found[0].id)
    } else if found.len() == 0 {
        Err(
            "no node matches '"@ + t
                + "' — use an id from query_knowledge or a unique title fragment"@,
        )
    } else {
        Err(
            "'"@ + t + "' is ambiguous ("@ + text::decimal(found.len()) + " matches): "@ + joined(
                text_list(found),
                "; "@,
            ),
        )
    }
}

/// The first five candidates of an ambiguous reference.
pub open spec fn text_list(found: Seq<NodeView>) -> Seq<Seq<char>> {
    (if found.len() <= 5 {
        found
    } else {
        found.take(5)
    }).map_values(|n: NodeView| candidate(n))
}

fn clip(s: &str, n: usize) -> (r: String)
    ensures
        r@ == text::clipped(s@, n as int),
{
    let v: Vec<char> = text::chars_of(s);
    if v.len() <= n {
        s.to_owned()
    } else {
        assert(v@.subrange(0, n as int) =~= v@.take(n as int));
        text::string_of(slice_subrange(v.as_slice(), 0, n))
    }
}

fn find_holding(graph: &KnowledgeGraph, t: &str) -> (r: Vec<Node>)
    ensures
        node_views(r@) == holding(graph@, t@),
{
    let ghost p = |n: NodeView| occurs(lowercase(n.inhalt), lowercase(t@));
    let low: String = text::to_lowercase(t);
    let mut out: Vec<Node> = Vec::new();
    let mut i: usize = 0;
    proof {
        reveal(Seq::filter);
        assert(node_views(out@) =~= graph@.nodes.take(0).filter(p));
    }
    while i < graph.nodes.len()
        invariant
            p == (|n: NodeView| occurs(lowercase(n.inhalt), lowercase(t@))),
            low@ == lowercase(t@),
            i <= graph.nodes.len(),
            node_views(out@) == graph@.nodes.take(i as int).filter(p),
        decreases graph.nodes.len() - i,
    {
        let ghost nodes = graph@.nodes;
        assert(nodes[i as int] == graph.nodes@[i as int]@);
        proof {
            assert(nodes.take(i + 1) =~= nodes.take(i as int).push(nodes[i as int]));
            lemma_filter_push(nodes.take(i as int), nodes[i as int], p);
        }
        if text::contains(&text::to_lowercase(&graph.nodes[i].inhalt), &low) {
            let ghost before = out@;
            out.push(graph.nodes[i].copy());
            assert(node_views(out@) =~= node_views(before).push(nodes[i as int]));
        }
        i += 1;
    }
    assert(graph@.nodes.take(graph@.nodes.len() as int) =~= graph@.nodes);
    out
}

/// Resolves a reference to a node: an id, or else a text that exactly one statement
/// holds, in either case. White space around the reference does not matter.
pub fn resolve_ref(graph: &KnowledgeGraph, r: &str) -> (res: Result<String, String>)
    ensures
        match resolved(graph@, r@) {
            Ok(id) => res matches Ok(s) && s@ == id,
            Err(t) => res matches Err(s) && s@ == t,
        },
{
    let t: String = text::trim(r);
    if graph.find_node(&t).is_some() {
        return Ok(t);
    }
    let found: Vec<Node> = find_holding(graph, &t);
    assert(node_views(found@).len() == found@.len());
    if found.len() == 1 {
        assert(node_views(found@)[0] == found@[0]@);
        return Ok(found[0].id.clone());
    }
    if found.len() == 0 {
        return Err(
            "no node matches '".to_owned().concat(&t).concat(
                "' — use an id from query_knowledge or a unique title fragment",
            ),
        );
    }
    let mut cands: Vec<String> = Vec::new();
    let n: usize = if found.len() <= 5 {
        found.len()
    } else {
        5
    };
    let mut i: usize = 0;
    while i < n
        invariant
            i <= n <= found.len(),
            cands.len() == i,
            forall|k: int| 0 <= k < i ==> (#[trigger] cands@[k])@ == candidate(found@[k]@),
        decreases n - i,
    {
        let short: String = clip(&found[i].inhalt, 40);
        cands.push(found[i].id.clone().concat(" ('").concat(&short).concat("…')"));
        i += 1;
    }
    assert(texts(cands@) =~= text_list(node_views(found@)));
    Err(
        "'".to_owned().concat(&t).concat("' is ambiguous (").concat(
            &text::number(found.len() as u64),
        ).concat(" matches): ").concat(&text::join(&cands, "; ")),
    )
}

/// The length of the word that a text begins with.
pub open spec fn word_len(s: Seq<char>) -> int
    decreases s.len(),
{
    if s.len() == 0 || white(s[0]) {
        0
    } else {
        1 + word_len(s.skip(1))
    }
}

/// The words of a text: its parts between white space.
pub open spec fn words(s: Seq<char>) -> Seq<Seq<char>>
    decreases s.len(),
    via words_decreases
{
    let t = trim_front(s);
    if t.len() == 0 {
        Seq::empty()
    } else {
        seq![t.take(word_len(t))] + words(t.skip(word_len(t)))
    }
}

#[via_fn]
proof fn words_decreases(s: Seq<char>) {
    lemma_trim_front(s);
    let t = trim_front(s);
    lemma_word_len(t);
}

proof fn lemma_trim_front(s: Seq<char>)
    ensures
        trim_front(s).len() <= s.len(),
        trim_front(s).len() > 0 ==> !white(trim_front(s)[0]),
    decreases s.len(),
{
    if s.len() > 0 && white(s[0]) {
        lemma_trim_front(s.skip(1));
    }
}

proof fn lemma_word_len(s: Seq<char>)
    ensures
        0 <= word_len(s) <= s.len(),
        s.len() > 0 && !white(s[0]) ==> word_len(s) > 0,
        forall|k: int| 0 <= k < word_len(s) ==> !white(s[k]),
        word_len(s) < s.len() ==> white(s[word_len(s)]),
    decreases s.len(),
{
    if s.len() > 0 && !white(s[0]) {
        let t = s.skip(1);
        lemma_word_len(t);
        assert forall|k: int| 0 <= k < word_len(s) implies !white(s[k]) by {
            if k > 0 {
                assert(t[k - 1] == s[k]);
            }
        }
    }
}

/// A text for comparison: its words with single spaces, in lower case.
pub open spec fn normalized(s: Seq<char>) -> Seq<char> {
    lowercase(joined(words(s), " "@))
}

/// The words of a text.
pub fn split_words(s: &str) -> (r: Vec<String>)
    ensures
        texts(r@) == words(s@),
{
    let v: Vec<char> = text::chars_of(s);
    let mut out: Vec<String> = Vec::new();
    let mut at: usize = 0;
    assert(v@.skip(0) =~= v@);
    assert(texts(out@) + words(v@.skip(0)) =~= words(v@));
    loop
        invariant
            at <= v.len(),
            words(v@) == texts(out@) + words(v@.skip(at as int)),
        ensures
            words(v@) == texts(out@),
        decreases v.len() - at,
    {
        let ghost rest = v@.skip(at as int);
        let mut from: usize = at;
        while from < v.len() && text::is_white(v[from])
            invariant
                at <= from <= v.len(),
                rest == v@.skip(at as int),
                trim_front(rest) == trim_front(v@.skip(from as int)),
            decreases v.len() - from,
        {
            assert(v@.skip(from as int).skip(1) =~= v@.skip(from + 1));
            from += 1;
        }
        let ghost t = v@.skip(from as int);
        assert(trim_front(rest) == t);
        if from == v.len() {
            assert(words(rest) =~= Seq::empty());
            assert(texts(out@) + Seq::<Seq<char>>::empty() =~= texts(out@));
            break;
        }
        let mut to: usize = from;
        proof {
            assert(t.skip(0) =~= t);
        }
        while to < v.len() && !text::is_white(v[to])
            invariant
                from <= to <= v.len(),
                t == v@.skip(from as int),
                word_len(t) == (to - from) + word_len(t.skip(to - from)),
            decreases v.len() - to,
        {
            assert(t.skip(to - from)[0] == v@[to as int]);
            assert(t.skip(to - from).skip(1) =~= t.skip(to - from + 1));
            to += 1;
        }
        if to < v.len() {
            assert(t.skip(to - from)[0] == v@[to as int]);
        }
        assert(word_len(t.skip(to - from)) == 0);
        let ghost before = out@;
        out.push(text::string_of(slice_subrange(v.as_slice(), from, to)));
        proof {
            assert(v@.subrange(from as int, to as int) =~= t.take(to - from));
            assert(t.skip(to - from) =~= v@.skip(to as int));
            assert(texts(out@) =~= texts(before).push(t.take(to - from)));
            lemma_word_len(t);
            assert(texts(before) + (seq![t.take(to - from)] + words(v@.skip(to as int)))
                =~= texts(out@) + words(v@.skip(to as int)));
        }
        at = to;
    }
    out
}

/// A text for comparison.
pub fn norm_text(s: &str) -> (r: String)
    ensures
        r@ == normalized(s@),
{
    let w: Vec<String> = split_words(s);
    text::to_lowercase(&text::join(&w, " "))
}

/// The first node from `from` on that says the same: of the same type, with the same
/// normalized statement.
pub open spec fn duplicate(
    nodes: Seq<NodeView>,
    typ: NodeType,
    inhalt: Seq<char>,
    from: int,
) -> Option<int>
    decreases nodes.len() - from,
{
    if from < 0 || from >= nodes.len() {
        None
    } else if nodes[from].typ == typ && normalized(nodes[from].inhalt) == normalized(inhalt) {
        Some(from)
    } else {
        duplicate(nodes, typ, inhalt, from + 1)
    }
}

/// The id of an existing node of the same type that says the same.
pub fn find_duplicate(graph: &KnowledgeGraph, typ: NodeType, inhalt: &str) -> (r: Option<String>)
    ensures
        match duplicate(graph@.nodes, typ, inhalt@, 0) {
            Some(i) => 0 <= i < graph@.nodes.len() && (r matches Some(s) && s@
                == graph@.nodes[i].id),
            None => r is None,
        },
{
    let target: String = norm_text(inhalt);
    let mut i: usize = 0;
    while i < graph.nodes.len()
        invariant
            target@ == normalized(inhalt@),
            i <= graph.nodes.len(),
            duplicate(graph@.nodes, typ, inhalt@, 0) == duplicate(
                graph@.nodes,
                typ,
                inhalt@,
                i as int,
            ),
        decreases graph.nodes.len() - i,
    {
        assert(graph@.nodes[i as int] == graph.nodes@[i as int]@);
        if graph.nodes[i].typ == typ && norm_text(&graph.nodes[i].inhalt) == target {
            return Some(graph.nodes[i].id.clone());
        }
        i += 1;
    }
    None
}

/// What was recorded is found again: once a node stands in the graph, a search for
/// its type and statement, in any spacing and case that compares equal, finds a node
/// that says the same.
pub proof fn recorded_is_duplicate(nodes: Seq<NodeView>, i: int, inhalt: Seq<char>)
    requires
        0 <= i < nodes.len(),
        normalized(nodes[i].inhalt) == normalized(inhalt),
    ensures
        duplicate(nodes, nodes[i].typ, inhalt, 0) matches Some(k) && 0 <= k <= i && nodes[k].typ
            == nodes[i].typ && normalized(nodes[k].inhalt) == normalized(inhalt),
{
    lemma_duplicate_from(nodes, i, inhalt, 0);
}

proof fn lemma_duplicate_from(nodes: Seq<NodeView>, i: int, inhalt: Seq<char>, from: int)
    requires
        0 <= from <= i < nodes.len(),
        normalized(nodes[i].inhalt) == normalized(inhalt),
    ensures
        duplicate(nodes, nodes[i].typ, inhalt, from) matches Some(k) && from <= k <= i
            && nodes[k].typ == nodes[i].typ && normalized(nodes[k].inhalt) == normalized(inhalt),
    decreases i - from,
{
    if from < i && !(nodes[from].typ == nodes[i].typ && normalized(nodes[from].inhalt)
        == normalized(inhalt)) {
        lemma_duplicate_from(nodes, i, inhalt, from + 1);
    }
}

} // verus!
