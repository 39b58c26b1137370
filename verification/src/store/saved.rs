//! The node directory: what saving a graph leaves in it, and what is read from it.

use vstd::prelude::*;

use crate::score::Score;
use crate::store::layout::{
    file_of, in_order, is_wanted, lemma_listed, listed_before, node_file_name, nodes_are_sorted,
};
use crate::store::lists::{
    edge_entry, edges_of_text, fragen_of_text, quellen_of_text, weight_text, EdgeEntryView,
};
use crate::store::model::{EdgeView, GraphView, KnowledgeGraph, NodeView};
use crate::store::node_md::{
    node_of_text, node_text, plain, read_back, separator, serialize_node_md, NodeFileView,
};

verus! {

/// A directory: the contents of its files, by name.
pub type Files = Map<Seq<char>, Seq<char>>;

/// The node can be read back from its file, where its scores have these texts.
pub open spec fn writable(n: NodeView, basis: Seq<char>, score: Seq<char>) -> bool {
    plain(basis) && plain(score) && separator(n.inhalt, 0) is None
}

/// The files of a graph's nodes, each with its name, given the texts of each node's scores.
pub fn node_files(graph: &KnowledgeGraph, numbers: &Vec<(String, String)>) -> (r: Vec<
    (String, String),
>)
    requires
        numbers.len() == graph.nodes.len(),
    ensures
        r.len() == graph.nodes.len(),
        forall|i: int|
            0 <= i < r.len() ==> (#[trigger] r[i]).0@ == file_of(graph@.nodes[i].id) && r[i].1@
                == node_text(graph@.nodes[i], numbers[i].0@, numbers[i].1@),
        forall|i: int|
            0 <= i < r.len() && writable(graph@.nodes[i], numbers[i].0@, numbers[i].1@)
                ==> node_of_text((#[trigger] r[i]).1@) == Some(
                read_back(graph@.nodes[i], numbers[i].0@, numbers[i].1@),
            ),
{
    let mut out: Vec<(String, String)> = Vec::new();
    let mut i: usize = 0;
    while i < graph.nodes.len()
        invariant
            i <= graph.nodes.len(),
            numbers.len() == graph.nodes.len(),
            out.len() == i,
            forall|k: int|
                0 <= k < i ==> (#[trigger] out[k]).0@ == file_of(graph@.nodes[k].id) && out[k].1@
                    == node_text(graph@.nodes[k], numbers[k].0@, numbers[k].1@),
            forall|k: int|
                0 <= k < i && writable(graph@.nodes[k], numbers[k].0@, numbers[k].1@)
                    ==> node_of_text((#[trigger] out[k]).1@) == Some(
                    read_back(graph@.nodes[k], numbers[k].0@, numbers[k].1@),
                ),
        decreases graph.nodes.len() - i,
    {
        assert(graph@.nodes[i as int] == graph.nodes@[i as int]@);
        let node = &graph.nodes[i];
        let text: String = serialize_node_md(node, &numbers[i].0, &numbers[i].1);
        out.push((node_file_name(&node.id), text));
        i += 1;
    }
    out
}

/// No two nodes share an id.
pub open spec fn distinct_ids(nodes: Seq<NodeView>) -> bool {
    forall|i: int, k: int|
        0 <= i < k < nodes.len() ==> (#[trigger] nodes[i]).id != (#[trigger] nodes[k]).id
}

/// The directory with the files of the first `n` nodes written into it.
pub open spec fn written(
    before: Files,
    nodes: Seq<NodeView>,
    texts: Seq<Seq<char>>,
    n: int,
) -> Files
    decreases n,
{
    if n <= 0 {
        before
    } else {
        written(before, nodes, texts, n - 1).insert(file_of(nodes[n - 1].id), texts[n - 1])
    }
}

/// What saving leaves: the nodes' files are written, and those that are stale are removed.
pub open spec fn saved(
    before: Files,
    g: GraphView,
    texts: Seq<Seq<char>>,
    md: spec_fn(Seq<char>) -> bool,
) -> Files {
    let all = written(before, g.nodes, texts, g.nodes.len() as int);
    all.restrict(Set::new(|name: Seq<char>| !(md(name) && !is_wanted(g, name))))
}

/// The node of a file, its scores read from their texts.
pub open spec fn scored(f: NodeFileView, number: spec_fn(Option<Seq<char>>) -> Score) -> NodeView {
    NodeView { basis_score: number(f.basis_score), score: number(f.score), ..f.node }
}

/// The nodes of the first `n` files of a listing. What is damaged is left out.
pub open spec fn nodes_read(
    files: Files,
    listing: Seq<Seq<char>>,
    md: spec_fn(Seq<char>) -> bool,
    number: spec_fn(Option<Seq<char>>) -> Score,
    n: int,
) -> Seq<NodeView>
    decreases n,
{
    if n <= 0 {
        Seq::empty()
    } else {
        let before = nodes_read(files, listing, md, number, n - 1);
        let name = listing[n - 1];
        match node_of_text(files[name]) {
            Some(f) if md(name) => before.push(scored(f, number)),
            _ => before,
        }
    }
}

/// The file of each node holds what reading it needs: the node, and texts that its scores
/// can be read from. `node_files` writes such files for nodes that are writable.
pub open spec fn texts_hold(
    nodes: Seq<NodeView>,
    texts: Seq<Seq<char>>,
    number: spec_fn(Option<Seq<char>>) -> Score,
) -> bool {
    &&& texts.len() == nodes.len()
    &&& forall|i: int|
        0 <= i < nodes.len() ==> (exists|basis: Seq<char>, score: Seq<char>|
            {
                &&& node_of_text(#[trigger] texts[i]) == Some(
                    #[trigger] read_back(nodes[i], basis, score),
                )
                &&& number(Some(basis)) == nodes[i].basis_score
                &&& number(Some(score)) == nodes[i].score
            })
}

/// After a graph is saved, the files of the node kind are those of its nodes, one for each,
/// and the other files are as they were.
pub proof fn saving_leaves_the_nodes_files(
    before: Files,
    g: GraphView,
    texts: Seq<Seq<char>>,
    md: spec_fn(Seq<char>) -> bool,
)
    requires
        distinct_ids(g.nodes),
        forall|i: int| 0 <= i < g.nodes.len() ==> md(file_of((#[trigger] g.nodes[i]).id)),
    ensures
        forall|name: Seq<char>|
            (#[trigger] saved(before, g, texts, md).contains_key(name) && md(name)) <==> is_wanted(
                g,
                name,
            ),
        forall|i: int|
            0 <= i < g.nodes.len() ==> saved(before, g, texts, md)[file_of(
                (#[trigger] g.nodes[i]).id,
            )] == texts[i],
        forall|i: int, k: int|
            0 <= i < k < g.nodes.len() ==> file_of((#[trigger] g.nodes[i]).id) != file_of(
                (#[trigger] g.nodes[k]).id,
            ),
        forall|name: Seq<char>|
            !md(name) ==> (#[trigger] saved(before, g, texts, md).contains_key(name)
                <==> before.contains_key(name)),
        forall|name: Seq<char>|
            !md(name) && before.contains_key(name) ==> #[trigger] saved(before, g, texts, md)[name]
                == before[name],
{
    let n = g.nodes.len() as int;
    lemma_written(before, g.nodes, texts, n);
    lemma_files_apart(g.nodes);
    let after = saved(before, g, texts, md);
    assert forall|name: Seq<char>| (#[trigger] after.contains_key(name) && md(name)) <==> is_wanted(
        g,
        name,
    ) by {
        if is_wanted(g, name) {
            let i = choose|i: int| 0 <= i < n && file_of((#[trigger] g.nodes[i]).id) == name;
            assert(md(file_of(g.nodes[i].id)));
        }
    }
    assert forall|i: int| 0 <= i < n implies after[file_of((#[trigger] g.nodes[i]).id)]
        == texts[i] by {
        assert(is_wanted(g, file_of(g.nodes[i].id)));
    }
    assert forall|name: Seq<char>| !md(name) implies (#[trigger] after.contains_key(name)
        <==> before.contains_key(name)) by {
        assert forall|i: int| 0 <= i < n implies file_of((#[trigger] g.nodes[i]).id) != name by {
            assert(md(file_of(g.nodes[i].id)));
        }
    }
    assert forall|name: Seq<char>| !md(name) && before.contains_key(name) implies
        #[trigger] after[name] == before[name] by {
        assert(after.contains_key(name));
        assert forall|i: int| 0 <= i < n implies file_of((#[trigger] g.nodes[i]).id) != name by {
            assert(md(file_of(g.nodes[i].id)));
        }
    }
}

/// A graph that was saved has its nodes again when it is read, as they were, the oldest
/// first, in whatever order the directory lists its files and whatever it held before.
pub proof fn saved_nodes_are_read_back(
    before: Files,
    g: GraphView,
    texts: Seq<Seq<char>>,
    listing: Seq<Seq<char>>,
    md: spec_fn(Seq<char>) -> bool,
    number: spec_fn(Option<Seq<char>>) -> Score,
)
    requires
        distinct_ids(g.nodes),
        texts_hold(g.nodes, texts, number),
        forall|i: int| 0 <= i < g.nodes.len() ==> md(file_of((#[trigger] g.nodes[i]).id)),
        listing.no_duplicates(),
        forall|name: Seq<char>| #[trigger]
            listing.contains(name) <==> saved(before, g, texts, md).contains_key(name),
    ensures
        in_order(
            nodes_read(
                saved(before, g, texts, md),
                listing,
                md,
                number,
                listing.len() as int,
            ),
        ) == in_order(g.nodes),
{
    let files = saved(before, g, texts, md);
    let n = listing.len() as int;
    saving_leaves_the_nodes_files(before, g, texts, md);
    assert forall|m: int| 0 <= m < n && md(#[trigger] listing[m]) implies is_wanted(
        g,
        listing[m],
    ) by {
        assert(listing.contains(listing[m]));
        assert(files.contains_key(listing[m]));
    }
    lemma_read(files, g, texts, listing, md, number, n);
    let r = nodes_read(files, listing, md, number, n);
    assert forall|x: NodeView| r.contains(x) <==> g.nodes.contains(x) by {
        if g.nodes.contains(x) {
            let i = choose|i: int| 0 <= i < g.nodes.len() && g.nodes[i] == x;
            let name = file_of(g.nodes[i].id);
            assert(is_wanted(g, name));
            assert(files.contains_key(name));
            assert(listing.contains(name));
            let m = choose|m: int| 0 <= m < listing.len() && listing[m] == name;
            assert(r.contains(g.nodes[i]));
        }
    }
    lemma_ordered(r);
    lemma_ordered(g.nodes);
    nodes_are_sorted(r);
    nodes_are_sorted(g.nodes);
    lemma_same_order(in_order(r), in_order(g.nodes));
}

/// What is read from a store: the nodes of its directory, the oldest first, and what the
/// files of its lists say. `number` and `weight` read scores from their texts.
pub open spec fn loaded(
    files: Files,
    listing: Seq<Seq<char>>,
    md: spec_fn(Seq<char>) -> bool,
    number: spec_fn(Option<Seq<char>>) -> Score,
    weight: spec_fn(Seq<char>) -> Score,
    edges: Seq<char>,
    fragen: Seq<char>,
    quellen: Seq<char>,
) -> GraphView {
    GraphView {
        nodes: in_order(nodes_read(files, listing, md, number, listing.len() as int)),
        edges: edges_of_text(edges).map_values(
            |e: EdgeEntryView| EdgeView { gewicht: weight(e.gewicht), ..e.edge },
        ),
        fragen: fragen_of_text(fragen),
        quellen: quellen_of_text(quellen),
    }
}

/// A graph that was saved is read back whole: its nodes as they were, the oldest first,
/// and its edges, questions and documents in their order. `edges`, `fragen` and `quellen`
/// are texts as `edges_text`, `fragen_text` and `quellen_text` write them.
pub proof fn saved_store_is_read_back(
    before: Files,
    g: GraphView,
    texts: Seq<Seq<char>>,
    listing: Seq<Seq<char>>,
    md: spec_fn(Seq<char>) -> bool,
    number: spec_fn(Option<Seq<char>>) -> Score,
    weight: spec_fn(Seq<char>) -> Score,
    m: Seq<(Score, Seq<char>)>,
    edges: Seq<char>,
    fragen: Seq<char>,
    quellen: Seq<char>,
)
    requires
        distinct_ids(g.nodes),
        texts_hold(g.nodes, texts, number),
        forall|i: int| 0 <= i < g.nodes.len() ==> md(file_of((#[trigger] g.nodes[i]).id)),
        listing.no_duplicates(),
        forall|name: Seq<char>| #[trigger]
            listing.contains(name) <==> saved(before, g, texts, md).contains_key(name),
        edges_of_text(edges) == g.edges.map_values(|e: EdgeView| edge_entry(m, e)),
        forall|i: int|
            0 <= i < g.edges.len() ==> weight(weight_text(m, #[trigger] g.edges[i]))
                == g.edges[i].gewicht,
        fragen_of_text(fragen) == g.fragen,
        quellen_of_text(quellen) == g.quellen,
    ensures
        loaded(
            saved(before, g, texts, md),
            listing,
            md,
            number,
            weight,
            edges,
            fragen,
            quellen,
        ) == (GraphView { nodes: in_order(g.nodes), ..g }),
{
    saved_nodes_are_read_back(before, g, texts, listing, md, number);
    let read = edges_of_text(edges).map_values(
        |e: EdgeEntryView| EdgeView { gewicht: weight(e.gewicht), ..e.edge },
    );
    assert forall|i: int| 0 <= i < g.edges.len() implies #[trigger] read[i] == g.edges[i] by {
        assert(edges_of_text(edges)[i] == edge_entry(m, g.edges[i]));
        assert(weight(weight_text(m, g.edges[i])) == g.edges[i].gewicht);
    }
    assert(read =~= g.edges);
}

proof fn lemma_file_of(a: Seq<char>, b: Seq<char>)
    ensures
        file_of(a) == file_of(b) ==> a == b,
{
    assert(file_of(a).take(file_of(a).len() - ".md"@.len()) =~= a);
    assert(file_of(b).take(file_of(b).len() - ".md"@.len()) =~= b);
}

proof fn lemma_files_apart(nodes: Seq<NodeView>)
    requires
        distinct_ids(nodes),
    ensures
        forall|i: int, k: int|
            0 <= i < k < nodes.len() ==> file_of((#[trigger] nodes[i]).id) != file_of(
                (#[trigger] nodes[k]).id,
            ),
{
    assert forall|i: int, k: int| 0 <= i < k < nodes.len() implies file_of(
        (#[trigger] nodes[i]).id,
    ) != file_of((#[trigger] nodes[k]).id) by {
        lemma_file_of(nodes[i].id, nodes[k].id);
    }
}

proof fn lemma_written(before: Files, nodes: Seq<NodeView>, texts: Seq<Seq<char>>, n: int)
    requires
        distinct_ids(nodes),
        0 <= n <= nodes.len(),
    ensures
        forall|name: Seq<char>| #[trigger]
            written(before, nodes, texts, n).contains_key(name) <==> (before.contains_key(name)
                || exists|i: int| 0 <= i < n && file_of((#[trigger] nodes[i]).id) == name),
        forall|i: int|
            0 <= i < n ==> written(before, nodes, texts, n)[file_of((#[trigger] nodes[i]).id)]
                == texts[i],
        forall|name: Seq<char>|
            (forall|i: int| 0 <= i < n ==> file_of((#[trigger] nodes[i]).id) != name)
                ==> #[trigger] written(before, nodes, texts, n)[name] == before[name],
    decreases n,
{
    if n > 0 {
        let last = file_of(nodes[n - 1].id);
        lemma_written(before, nodes, texts, n - 1);
        lemma_files_apart(nodes);
        let w = written(before, nodes, texts, n);
        let v = written(before, nodes, texts, n - 1);
        assert forall|name: Seq<char>| #[trigger] w.contains_key(name) <==> (before.contains_key(
            name,
        ) || exists|i: int| 0 <= i < n && file_of((#[trigger] nodes[i]).id) == name) by {
            if name == last {
                assert(file_of(nodes[n - 1].id) == name);
            } else {
                assert(v.contains_key(name) == w.contains_key(name));
            }
        }
        assert forall|i: int| 0 <= i < n implies w[file_of((#[trigger] nodes[i]).id)]
            == texts[i] by {
            if i < n - 1 {
                assert(file_of(nodes[i].id) != file_of(nodes[n - 1].id));
            }
        }
        assert forall|name: Seq<char>|
            (forall|i: int| 0 <= i < n ==> file_of((#[trigger] nodes[i]).id) != name) implies
            #[trigger] w[name] == before[name] by {
            assert(file_of(nodes[n - 1].id) != name);
            assert(v[name] == before[name]);
        }
    }
}

/// What the first `n` files of a listing give: nodes of the graph, each at most once, and
/// each whose file is among them.
proof fn lemma_read(
    files: Files,
    g: GraphView,
    texts: Seq<Seq<char>>,
    listing: Seq<Seq<char>>,
    md: spec_fn(Seq<char>) -> bool,
    number: spec_fn(Option<Seq<char>>) -> Score,
    n: int,
)
    requires
        distinct_ids(g.nodes),
        texts_hold(g.nodes, texts, number),
        listing.no_duplicates(),
        0 <= n <= listing.len(),
        forall|i: int| 0 <= i < g.nodes.len() ==> md(file_of((#[trigger] g.nodes[i]).id)),
        forall|m: int|
            0 <= m < listing.len() && md(#[trigger] listing[m]) ==> is_wanted(g, listing[m]),
        forall|i: int|
            0 <= i < g.nodes.len() ==> files[file_of((#[trigger] g.nodes[i]).id)] == texts[i],
    ensures
        distinct_ids(nodes_read(files, listing, md, number, n)),
        forall|x: NodeView| #[trigger]
            nodes_read(files, listing, md, number, n).contains(x) ==> g.nodes.contains(x)
                && exists|m: int| 0 <= m < n && #[trigger] listing[m] == file_of(x.id),
        forall|i: int, m: int|
            0 <= i < g.nodes.len() && 0 <= m < n && #[trigger] listing[m] == file_of(
                (#[trigger] g.nodes[i]).id,
            ) ==> nodes_read(files, listing, md, number, n).contains(g.nodes[i]),
    decreases n,
{
    let r = nodes_read(files, listing, md, number, n);
    if n > 0 {
        lemma_read(files, g, texts, listing, md, number, n - 1);
        let p = nodes_read(files, listing, md, number, n - 1);
        let name = listing[n - 1];
        if md(name) {
            assert(is_wanted(g, name));
            let i = choose|i: int|
                0 <= i < g.nodes.len() && file_of((#[trigger] g.nodes[i]).id) == name;
            let x = g.nodes[i];
            let (basis, score) = choose|basis: Seq<char>, score: Seq<char>|
                {
                    &&& node_of_text(texts[i]) == Some(
                        #[trigger] read_back(g.nodes[i], basis, score),
                    )
                    &&& number(Some(basis)) == g.nodes[i].basis_score
                    &&& number(Some(score)) == g.nodes[i].score
                };
            assert(files[name] == texts[i]);
            assert(scored(read_back(x, basis, score), number) == x);
            assert(r == p.push(x));
            assert forall|a: int, b: int| 0 <= a < b < r.len() implies (#[trigger] r[a]).id != (
            #[trigger] r[b]).id by {
                if b == p.len() {
                    assert(p.contains(r[a]));
                    let m = choose|m: int| 0 <= m < n - 1 && #[trigger] listing[m] == file_of(
                        r[a].id,
                    );
                    assert(listing[m] != listing[n - 1]);
                } else {
                    assert(p[a].id != p[b].id);
                }
            }
            assert forall|y: NodeView| #[trigger] r.contains(y) implies g.nodes.contains(y)
                && exists|m: int| 0 <= m < n && #[trigger] listing[m] == file_of(y.id) by {
                let j = choose|j: int| 0 <= j < r.len() && r[j] == y;
                if j < p.len() {
                    assert(p[j] == y);
                    assert(p.contains(y));
                } else {
                    assert(listing[n - 1] == file_of(y.id));
                }
            }
            assert forall|k: int, m: int|
                0 <= k < g.nodes.len() && 0 <= m < n && #[trigger] listing[m] == file_of(
                    (#[trigger] g.nodes[k]).id,
                ) implies r.contains(g.nodes[k]) by {
                if m == n - 1 {
                    lemma_file_of(g.nodes[k].id, x.id);
                    assert(k == i);
                    assert(r[p.len() as int] == x);
                } else {
                    assert(p.contains(g.nodes[k]));
                    let j = choose|j: int| 0 <= j < p.len() && p[j] == g.nodes[k];
                    assert(r[j] == g.nodes[k]);
                }
            }
        } else {
            assert(r == p);
        }
    }
}

/// Putting nodes in order keeps which there are, and that their ids differ.
proof fn lemma_ordered(s: Seq<NodeView>)
    requires
        distinct_ids(s),
    ensures
        distinct_ids(in_order(s)),
        forall|x: NodeView| #[trigger] in_order(s).contains(x) <==> s.contains(x),
{
    let o = in_order(s);
    nodes_are_sorted(s);
    s.to_multiset_ensures();
    o.to_multiset_ensures();
    assert forall|x: NodeView| #[trigger] o.contains(x) <==> s.contains(x) by {
        assert(o.to_multiset().count(x) == s.to_multiset().count(x));
    }
    assert(s.no_duplicates()) by {
        assert forall|i: int, k: int|
            0 <= i < s.len() && 0 <= k < s.len() && i != k implies s[i] != s[k] by {
            if i < k {
                assert(s[i].id != s[k].id);
            } else {
                assert(s[k].id != s[i].id);
            }
        }
    }
    s.lemma_multiset_has_no_duplicates();
    o.lemma_multiset_has_no_duplicates_conv();
    assert forall|i: int, k: int| 0 <= i < k < o.len() implies (#[trigger] o[i]).id != (
    #[trigger] o[k]).id by {
        assert(o.contains(o[i]) && o.contains(o[k]));
        let a = choose|a: int| 0 <= a < s.len() && s[a] == o[i];
        let b = choose|b: int| 0 <= b < s.len() && s[b] == o[k];
        assert(a != b);
        if a < b {
            assert(s[a].id != s[b].id);
        } else {
            assert(s[b].id != s[a].id);
        }
    }
}

/// There is one order of given nodes.
proof fn lemma_same_order(a: Seq<NodeView>, b: Seq<NodeView>)
    requires
        distinct_ids(a),
        distinct_ids(b),
        forall|x: NodeView| #[trigger] a.contains(x) <==> b.contains(x),
        forall|i: int, k: int|
            0 <= i < k < a.len() ==> !listed_before(#[trigger] a[k], #[trigger] a[i]),
        forall|i: int, k: int|
            0 <= i < k < b.len() ==> !listed_before(#[trigger] b[k], #[trigger] b[i]),
    ensures
        a == b,
    decreases a.len(),
{
    if a.len() == 0 {
        if b.len() > 0 {
            assert(b.contains(b[0]));
            assert(a.contains(b[0]));
        }
        assert(a =~= b);
    } else {
        let x = a[a.len() - 1];
        assert(a.contains(x));
        assert(b.contains(x));
        let y = b[b.len() - 1];
        assert(b.contains(y));
        assert(a.contains(y));
        let i = choose|i: int| 0 <= i < a.len() && a[i] == y;
        let k = choose|k: int| 0 <= k < b.len() && b[k] == x;
        if i < a.len() - 1 {
            if k < b.len() - 1 {
                assert(!listed_before(a[a.len() - 1], a[i]));
                assert(!listed_before(b[b.len() - 1], b[k]));
                lemma_listed(x, y, x);
                assert(a[i].id != a[a.len() - 1].id);
            }
        }
        assert(x == y);
        let c = a.drop_last();
        let d = b.drop_last();
        assert forall|z: NodeView| #[trigger] c.contains(z) <==> d.contains(z) by {
            if c.contains(z) {
                let j = choose|j: int| 0 <= j < c.len() && c[j] == z;
                assert(a[j] == z && a[j].id != x.id);
                assert(a.contains(z));
                let m = choose|m: int| 0 <= m < b.len() && b[m] == z;
                assert(d[m] == z);
            }
            if d.contains(z) {
                let j = choose|j: int| 0 <= j < d.len() && d[j] == z;
                assert(b[j] == z && b[j].id != y.id);
                assert(b.contains(z));
                assert(a.contains(z));
                let m = choose|m: int| 0 <= m < a.len() && a[m] == z;
                assert(c[m] == z);
            }
        }
        assert forall|i: int, k: int| 0 <= i < k < c.len() implies !listed_before(
            #[trigger] c[k],
            #[trigger] c[i],
        ) by {
            assert(a[k] == c[k] && a[i] == c[i]);
        }
        assert forall|i: int, k: int| 0 <= i < k < d.len() implies !listed_before(
            #[trigger] d[k],
            #[trigger] d[i],
        ) by {
            assert(b[k] == d[k] && b[i] == d[i]);
        }
        assert forall|i: int, k: int| 0 <= i < k < c.len() implies (#[trigger] c[i]).id != (
        #[trigger] c[k]).id by {
            assert(a[i].id != a[k].id);
        }
        assert forall|i: int, k: int| 0 <= i < k < d.len() implies (#[trigger] d[i]).id != (
        #[trigger] d[k]).id by {
            assert(b[i].id != b[k].id);
        }
        lemma_same_order(c, d);
        assert(a =~= c.push(x));
        assert(b =~= d.push(x));
    }
}

} // verus!
