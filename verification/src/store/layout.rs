//! The files of a store: one per node, in an order that does not depend on the directory.

use vstd::prelude::*;
use vstd::string::StringExecFns;

use crate::store::model::{node_views, GraphView, KnowledgeGraph, Node, NodeView};
use crate::text;
use crate::text::less;

verus! {

/// The name of a node's file.
pub open spec fn file_of(id: Seq<char>) -> Seq<char> {
    id + ".md"@
}

/// The name of a node's file.
pub fn node_file_name(id: &str) -> (r: String)
    ensures
        r@ == file_of(id@),
{
    id.to_owned().concat(".md")
}

/// The file belongs to a node of the graph.
pub open spec fn is_wanted(g: GraphView, name: Seq<char>) -> bool {
    exists|i: int| 0 <= i < g.nodes.len() && file_of((#[trigger] g.nodes[i]).id) == name
}

/// Whether a file in the node directory is left over from a node that is gone. Files of
/// other kinds are left alone.
pub fn is_stale(graph: &KnowledgeGraph, name: &str, is_md: bool) -> (r: bool)
    ensures
        r == (is_md && !is_wanted(graph@, name@)),
{
    if !is_md {
        return false;
    }
    let mut i: usize = 0;
    while i < graph.nodes.len()
        invariant
            i <= graph.nodes.len(),
            forall|k: int| 0 <= k < i ==> file_of((#[trigger] graph@.nodes[k]).id) != name@,
        decreases graph.nodes.len() - i,
    {
        assert(graph@.nodes[i as int] == graph.nodes@[i as int]@);
        if text::same(&node_file_name(&graph.nodes[i].id), name) {
            return false;
        }
        i += 1;
    }
    true
}

/// `a` is listed before `b`: it is older, or as old and its id comes first.
pub open spec fn listed_before(a: NodeView, b: NodeView) -> bool {
    less(a.datum, b.datum) || (a.datum == b.datum && less(a.id, b.id))
}

/// Nodes with one more at its place.
pub open spec fn placed(s: Seq<NodeView>, x: NodeView) -> Seq<NodeView>
    decreases s.len(),
{
    if s.len() > 0 && listed_before(x, s.last()) {
        placed(s.drop_last(), x).push(s.last())
    } else {
        s.push(x)
    }
}

/// Nodes in the order in which they are listed.
pub open spec fn in_order(s: Seq<NodeView>) -> Seq<NodeView>
    decreases s.len(),
{
    if s.len() == 0 {
        s
    } else {
        placed(in_order(s.drop_last()), s.last())
    }
}

fn comes_before(a: &Node, b: &Node) -> (r: bool)
    ensures
        r == listed_before(a@, b@),
{
    text::is_less(&a.datum, &b.datum) || (a.datum == b.datum && text::is_less(&a.id, &b.id))
}

fn place(out: &mut Vec<Node>, x: Node)
    ensures
        node_views(final(out)@) == placed(node_views(old(out)@), x@),
{
    let ghost s = node_views(out@);
    let mut i: usize = out.len();
    assert(s.take(i as int) =~= s);
    assert(placed(s, x@) =~= placed(s.take(i as int), x@) + s.skip(i as int));
    while i > 0 && comes_before(&x, &out[i - 1])
        invariant
            i <= out.len(),
            s == node_views(out@),
            placed(s, x@) == placed(s.take(i as int), x@) + s.skip(i as int),
        decreases i,
    {
        proof {
            let t = s.take(i as int);
            assert(s[i - 1] == out@[i - 1]@);
            assert(t.last() == s[i - 1]);
            assert(t.drop_last() =~= s.take(i - 1));
            assert(placed(t, x@) == placed(s.take(i - 1), x@).push(s[i - 1]));
            assert(placed(s, x@) =~= placed(s.take(i - 1), x@) + s.skip(i - 1));
        }
        i -= 1;
    }
    proof {
        let t = s.take(i as int);
        if i > 0 {
            assert(s[i - 1] == out@[i - 1]@);
            assert(t.last() == s[i - 1]);
        }
        assert(placed(t, x@) == t.push(x@));
    }
    out.insert(i, x);
    assert(node_views(out@) =~= s.take(i as int).push(x@) + s.skip(i as int));
}

/// Puts nodes in the order in which they are listed.
pub fn sort_nodes(nodes: Vec<Node>) -> (r: Vec<Node>)
    ensures
        node_views(r@) == in_order(node_views(nodes@)),
{
    let ghost all = node_views(nodes@);
    let mut out: Vec<Node> = Vec::new();
    let mut i: usize = 0;
    assert(node_views(out@) =~= in_order(all.take(0)));
    while i < nodes.len()
        invariant
            all == node_views(nodes@),
            i <= nodes.len(),
            node_views(out@) == in_order(all.take(i as int)),
        decreases nodes.len() - i,
    {
        assert(all.take(i + 1).drop_last() =~= all.take(i as int));
        assert(all.take(i + 1).last() == nodes@[i as int]@);
        place(&mut out, nodes[i].copy());
        i += 1;
    }
    assert(all.take(all.len() as int) =~= all);
    out
}

/// The listing is a strict order, which tells nodes apart by date and id.
pub proof fn lemma_listed(a: NodeView, b: NodeView, c: NodeView)
    ensures
        listed_before(a, b) ==> !listed_before(b, a),
        listed_before(a, b) && listed_before(b, c) ==> listed_before(a, c),
        !listed_before(a, b) && !listed_before(b, a) ==> a.datum == b.datum && a.id == b.id,
{
    text::lemma_less_total(a.datum, b.datum);
    text::lemma_less_total(b.datum, a.datum);
    text::lemma_less_total(a.id, b.id);
    text::lemma_less_total(b.id, a.id);
    if less(a.datum, b.datum) && less(b.datum, c.datum) {
        text::lemma_less_trans(a.datum, b.datum, c.datum);
    }
    if less(a.id, b.id) && less(b.id, c.id) {
        text::lemma_less_trans(a.id, b.id, c.id);
    }
}

/// In the order of the listing no node stands behind one that is listed after it, and none
/// is lost or added.
pub proof fn nodes_are_sorted(s: Seq<NodeView>)
    ensures
        forall|i: int, k: int|
            0 <= i < k < in_order(s).len() ==> !listed_before(
                #[trigger] in_order(s)[k],
                #[trigger] in_order(s)[i],
            ),
        in_order(s).to_multiset() == s.to_multiset(),
    decreases s.len(),
{
    if s.len() > 0 {
        let t = s.drop_last();
        nodes_are_sorted(t);
        lemma_placed(in_order(t), s.last());
        assert(s =~= t.push(s.last()));
        t.to_multiset_ensures();
    }
}

proof fn lemma_placed(s: Seq<NodeView>, x: NodeView)
    requires
        forall|i: int, k: int|
            0 <= i < k < s.len() ==> !listed_before(#[trigger] s[k], #[trigger] s[i]),
    ensures
        placed(s, x).len() == s.len() + 1,
        forall|i: int, k: int|
            0 <= i < k < placed(s, x).len() ==> !listed_before(
                #[trigger] placed(s, x)[k],
                #[trigger] placed(s, x)[i],
            ),
        forall|i: int|
            0 <= i < placed(s, x).len() ==> (#[trigger] placed(s, x)[i]) == x || s.contains(
                placed(s, x)[i],
            ),
        placed(s, x).to_multiset() == s.to_multiset().insert(x),
    decreases s.len(),
{
    let p = placed(s, x);
    if s.len() > 0 && listed_before(x, s.last()) {
        let t = s.drop_last();
        let q = placed(t, x);
        lemma_placed(t, x);
        assert forall|i: int, k: int| 0 <= i < k < p.len() implies !listed_before(
            #[trigger] p[k],
            #[trigger] p[i],
        ) by {
            if k < q.len() {
                assert(p[k] == q[k] && p[i] == q[i]);
            } else {
                assert(p[k] == s.last());
                assert(p[i] == q[i]);
                if q[i] == x {
                    lemma_listed(x, s.last(), x);
                } else {
                    assert(t.contains(q[i]));
                    let j = choose|j: int| 0 <= j < t.len() && t[j] == q[i];
                    assert(s[j] == q[i]);
                    assert(!listed_before(s[s.len() - 1], s[j]));
                }
            }
        }
        assert forall|i: int| 0 <= i < p.len() implies (#[trigger] p[i]) == x || s.contains(
            p[i],
        ) by {
            if i < q.len() {
                assert(p[i] == q[i]);
                if q[i] != x {
                    let j = choose|j: int| 0 <= j < t.len() && t[j] == q[i];
                    assert(s[j] == q[i]);
                }
            } else {
                assert(s[s.len() - 1] == p[i]);
            }
        }
        q.to_multiset_ensures();
        t.to_multiset_ensures();
        assert(s =~= t.push(s.last()));
        assert(p.to_multiset() =~= s.to_multiset().insert(x));
    } else {
        assert forall|i: int, k: int| 0 <= i < k < p.len() implies !listed_before(
            #[trigger] p[k],
            #[trigger] p[i],
        ) by {
            if k == s.len() {
                assert(p[i] == s[i]);
                if listed_before(x, s[i]) {
                    let l = s[s.len() - 1];
                    assert(!listed_before(x, l));
                    if i < s.len() - 1 {
                        assert(!listed_before(l, s[i]));
                        lemma_listed(x, s[i], l);
                        lemma_listed(l, s[i], x);
                    }
                }
            } else {
                assert(p[k] == s[k] && p[i] == s[i]);
            }
        }
        assert forall|i: int| 0 <= i < p.len() implies (#[trigger] p[i]) == x || s.contains(
            p[i],
        ) by {
            if i < s.len() {
                assert(s[i] == p[i]);
            }
        }
        s.to_multiset_ensures();
    }
}

} // verus!
