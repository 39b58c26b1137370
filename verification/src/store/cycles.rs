//! Paths along edges. The graph must stay without cycles.

use vstd::prelude::*;

use crate::store::model::{edge_views, Edge, EdgeView};
use crate::text;
use crate::text::texts;

verus! {

/// Some edge leads from `a` to `b`.
pub open spec fn linked(edges: Seq<EdgeView>, a: Seq<char>, b: Seq<char>) -> bool {
    exists|k: int|
        0 <= k < edges.len() && (#[trigger] edges[k]).von == a && edges[k].zu == b
}

/// The i-th step of a path follows an edge.
pub open spec fn steps(edges: Seq<EdgeView>, path: Seq<Seq<char>>, i: int) -> bool {
    linked(edges, path[i], path[i + 1])
}

/// A path along edges; a single node is one.
pub open spec fn is_path(edges: Seq<EdgeView>, path: Seq<Seq<char>>) -> bool {
    path.len() > 0 && forall|i: int| 0 <= i < path.len() - 1 ==> #[trigger] steps(edges, path, i)
}

/// A path along edges from `a` to `b`.
pub open spec fn leads(
    edges: Seq<EdgeView>,
    path: Seq<Seq<char>>,
    a: Seq<char>,
    b: Seq<char>,
) -> bool {
    is_path(edges, path) && path[0] == a && path.last() == b
}

/// `b` can be reached from `a` along edges. Every node reaches itself.
pub open spec fn reaches(edges: Seq<EdgeView>, a: Seq<char>, b: Seq<char>) -> bool {
    exists|path: Seq<Seq<char>>| leads(edges, path, a, b)
}

/// No path along edges returns to where it began.
pub open spec fn acyclic(edges: Seq<EdgeView>) -> bool {
    forall|path: Seq<Seq<char>>|
        #[trigger] is_path(edges, path) && path.len() >= 2 ==> path[0] != path.last()
}

proof fn lemma_reaches_self(edges: Seq<EdgeView>, a: Seq<char>)
    ensures
        reaches(edges, a, a),
{
    assert(leads(edges, seq![a], a, a));
}

proof fn lemma_reaches_further(edges: Seq<EdgeView>, a: Seq<char>, b: Seq<char>, c: Seq<char>)
    requires
        reaches(edges, a, b),
        linked(edges, b, c),
    ensures
        reaches(edges, a, c),
{
    let p = choose|p: Seq<Seq<char>>| leads(edges, p, a, b);
    let q = p.push(c);
    assert forall|i: int| 0 <= i < q.len() - 1 implies #[trigger] steps(edges, q, i) by {
        if i < p.len() - 1 {
            assert(steps(edges, p, i));
        }
    }
    assert(leads(edges, q, a, c));
}

proof fn lemma_reaches_before(edges: Seq<EdgeView>, a: Seq<char>, b: Seq<char>, c: Seq<char>)
    requires
        linked(edges, a, b),
        reaches(edges, b, c),
    ensures
        reaches(edges, a, c),
{
    let p = choose|p: Seq<Seq<char>>| leads(edges, p, b, c);
    let q = seq![a] + p;
    assert forall|i: int| 0 <= i < q.len() - 1 implies #[trigger] steps(edges, q, i) by {
        if i > 0 {
            assert(steps(edges, p, i - 1));
        }
    }
    assert(leads(edges, q, a, c));
}

/// What is closed under edges holds everything that its members reach.
proof fn lemma_closed(edges: Seq<EdgeView>, set: Seq<Seq<char>>, path: Seq<Seq<char>>, i: int)
    requires
        is_path(edges, path),
        set.contains(path[0]),
        forall|a: Seq<char>, b: Seq<char>|
            set.contains(a) && #[trigger] linked(edges, a, b) ==> set.contains(b),
        0 <= i < path.len(),
    ensures
        set.contains(path[i]),
    decreases i,
{
    if i > 0 {
        lemma_closed(edges, set, path, i - 1);
        assert(steps(edges, path, i - 1));
    }
}

/// How many of the first `n` candidates are not yet seen.
spec fn unseen(cands: Seq<Seq<char>>, seen: Seq<Seq<char>>, n: nat) -> nat
    decreases n,
{
    if n == 0 {
        0
    } else {
        unseen(cands, seen, (n - 1) as nat) + (if seen.contains(cands[n - 1]) {
            0nat
        } else {
            1nat
        })
    }
}

proof fn lemma_unseen_shrinks(
    cands: Seq<Seq<char>>,
    seen: Seq<Seq<char>>,
    x: Seq<char>,
    n: nat,
)
    requires
        n <= cands.len(),
        !seen.contains(x),
    ensures
        unseen(cands, seen.push(x), n) <= unseen(cands, seen, n),
        (exists|k: int| 0 <= k < n && cands[k] == x) ==> unseen(cands, seen.push(x), n) < unseen(
            cands,
            seen,
            n,
        ),
    decreases n,
{
    if n > 0 {
        lemma_unseen_shrinks(cands, seen, x, (n - 1) as nat);
        let c = cands[n - 1];
        if seen.contains(c) {
            let k = choose|k: int| 0 <= k < seen.len() && seen[k] == c;
            assert(seen.push(x)[k] == c);
        } else if seen.push(x).contains(c) && c != x {
            let k = choose|k: int| 0 <= k < seen.push(x).len() && seen.push(x)[k] == c;
            assert(seen[k] == c);
        }
        if c == x {
            assert(seen.push(x)[seen.len() as int] == x);
        }
    }
}

/// The nodes that a search from `zu` can come to.
spec fn candidates(edges: Seq<EdgeView>, zu: Seq<char>) -> Seq<Seq<char>> {
    edges.map_values(|e: EdgeView| e.zu).push(zu)
}

/// Whether an edge from `von` to `zu` would close a cycle: whether `zu` already
/// reaches `von`.
pub fn would_cycle(edges: &Vec<Edge>, von: &str, zu: &str) -> (r: bool)
    ensures
        r == reaches(edge_views(edges@), zu@, von@),
{
    let ghost es = edge_views(edges@);
    let ghost cands = candidates(es, zu@);
    let mut stack: Vec<String> = vec![zu.to_owned()];
    let mut seen: Vec<String> = Vec::new();
    proof {
        lemma_reaches_self(es, zu@);
        assert(cands[es.len() as int] == zu@);
        assert(texts(stack@)[0] == zu@);
    }
    while stack.len() > 0
        invariant
            es == edge_views(edges@),
            cands == candidates(es, zu@),
            forall|i: int| 0 <= i < stack@.len() ==> reaches(es, zu@, (#[trigger] stack@[i])@),
            forall|i: int| 0 <= i < stack@.len() ==> cands.contains((#[trigger] stack@[i])@),
            !texts(seen@).contains(von@),
            texts(stack@).contains(zu@) || texts(seen@).contains(zu@),
            forall|a: Seq<char>, b: Seq<char>|
                texts(seen@).contains(a) && #[trigger] linked(es, a, b) ==> texts(seen@).contains(b)
                    || texts(stack@).contains(b),
        decreases unseen(cands, texts(seen@), cands.len()), stack.len(),
    {
        let ghost old_stack = texts(stack@);
        let ghost old_seen = texts(seen@);
        let cur: String = match stack.pop() {
            Some(c) => c,
            None => return false,
        };
        assert(old_stack =~= texts(stack@).push(cur@));
        proof {
            assert forall|b: Seq<char>| old_stack.contains(b) implies texts(stack@).contains(b)
                || b == cur@ by {
                let k = choose|k: int| 0 <= k < old_stack.len() && old_stack[k] == b;
                if k < stack@.len() {
                    assert(texts(stack@)[k] == b);
                }
            }
        }
        if text::same(&cur, von) {
            return true;
        }
        if text::one_of(&cur, &seen) {
            continue;
        }
        let ghost cur_text = cur@;
        proof {
            assert(cands.contains(cur_text));
            let k = choose|k: int| 0 <= k < cands.len() && cands[k] == cur_text;
            lemma_unseen_shrinks(cands, old_seen, cur_text, cands.len());
        }
        let key: String = cur.clone();
        seen.push(cur);
        let ghost new_seen = texts(seen@);
        assert(new_seen =~= old_seen.push(cur_text));
        proof {
            assert forall|a: Seq<char>| new_seen.contains(a) implies old_seen.contains(a) || a
                == cur_text by {
                let k = choose|k: int| 0 <= k < new_seen.len() && new_seen[k] == a;
                if k < old_seen.len() {
                    assert(old_seen[k] == a);
                }
            }
            assert(new_seen[old_seen.len() as int] == cur_text);
            assert forall|a: Seq<char>| old_seen.contains(a) implies new_seen.contains(a) by {
                let k = choose|k: int| 0 <= k < old_seen.len() && old_seen[k] == a;
                assert(new_seen[k] == a);
            }
        }
        let ghost base = texts(stack@);
        let mut k: usize = 0;
        while k < edges.len()
            invariant
                k <= edges.len(),
                es == edge_views(edges@),
                cands == candidates(es, zu@),
                key@ == cur_text,
                reaches(es, zu@, cur_text),
                texts(seen@) == new_seen,
                forall|i: int| 0 <= i < stack@.len() ==> reaches(es, zu@, (#[trigger] stack@[i])@),
                forall|i: int| 0 <= i < stack@.len() ==> cands.contains((#[trigger] stack@[i])@),
                forall|b: Seq<char>| base.contains(b) ==> texts(stack@).contains(b),
                forall|j: int|
                    0 <= j < k && (#[trigger] es[j]).von == cur_text ==> texts(stack@).contains(
                        es[j].zu,
                    ),
            decreases edges.len() - k,
        {
            assert(es[k as int] == edges@[k as int]@);
            if text::same(&edges[k].von, &key) {
                let ghost before = texts(stack@);
                stack.push(edges[k].zu.clone());
                proof {
                    let z = es[k as int].zu;
                    assert(linked(es, cur_text, z));
                    lemma_reaches_further(es, zu@, cur_text, z);
                    assert(cands[k as int] == z);
                    assert(texts(stack@) =~= before.push(z));
                    assert forall|b: Seq<char>| before.contains(b) implies texts(stack@).contains(
                        b,
                    ) by {
                        let i = choose|i: int| 0 <= i < before.len() && before[i] == b;
                        assert(texts(stack@)[i] == b);
                    }
                    assert(texts(stack@)[before.len() as int] == z);
                }
            }
            k += 1;
        }
        proof {
            assert forall|a: Seq<char>, b: Seq<char>|
                new_seen.contains(a) && #[trigger] linked(es, a, b) implies new_seen.contains(b)
                || texts(stack@).contains(b) by {
                if a == cur_text {
                    let j = choose|j: int|
                        0 <= j < es.len() && (#[trigger] es[j]).von == a && es[j].zu == b;
                    assert(es[j].von == cur_text);
                } else {
                    assert(old_seen.contains(b) || old_stack.contains(b));
                }
            }
        }
    }
    proof {
        assert(texts(stack@) =~= Seq::empty());
        if reaches(es, zu@, von@) {
            let p = choose|p: Seq<Seq<char>>| leads(es, p, zu@, von@);
            lemma_closed(es, texts(seen@), p, p.len() - 1);
        }
    }
    false
}

/// The edges are free of cycles exactly where no edge ends where a path to its own start
/// begins.
proof fn lemma_acyclic_by_edges(edges: Seq<EdgeView>)
    ensures
        acyclic(edges) == (forall|k: int|
            0 <= k < edges.len() ==> !reaches(edges, (#[trigger] edges[k]).zu, edges[k].von)),
{
    if acyclic(edges) {
        assert forall|k: int| 0 <= k < edges.len() implies !reaches(
            edges,
            (#[trigger] edges[k]).zu,
            edges[k].von,
        ) by {
            let e = edges[k];
            if reaches(edges, e.zu, e.von) {
                let p = choose|p: Seq<Seq<char>>| leads(edges, p, e.zu, e.von);
                let q = seq![e.von] + p;
                assert forall|i: int| 0 <= i < q.len() - 1 implies #[trigger] steps(edges, q, i) by {
                    if i == 0 {
                        assert(linked(edges, q[0], q[1]));
                    } else {
                        assert(steps(edges, p, i - 1));
                    }
                }
                assert(is_path(edges, q));
            }
        }
    }
    if forall|k: int|
        0 <= k < edges.len() ==> !reaches(edges, (#[trigger] edges[k]).zu, edges[k].von) {
        assert forall|p: Seq<Seq<char>>| #[trigger] is_path(edges, p) && p.len() >= 2 implies p[0]
            != p.last() by {
            assert(steps(edges, p, 0));
            let k = choose|k: int|
                0 <= k < edges.len() && (#[trigger] edges[k]).von == p[0] && edges[k].zu == p[1];
            let q = p.skip(1);
            assert forall|i: int| 0 <= i < q.len() - 1 implies #[trigger] steps(edges, q, i) by {
                assert(steps(edges, p, i + 1));
            }
            if p[0] == p.last() {
                assert(leads(edges, q, edges[k].zu, edges[k].von));
            }
        }
    }
}

/// Whether some path along the edges returns to where it began.
pub fn has_cycle(edges: &Vec<Edge>) -> (r: bool)
    ensures
        r == !acyclic(edge_views(edges@)),
{
    let ghost es = edge_views(edges@);
    proof {
        lemma_acyclic_by_edges(es);
    }
    let mut i: usize = 0;
    while i < edges.len()
        invariant
            es == edge_views(edges@),
            acyclic(es) == (forall|k: int|
                0 <= k < es.len() ==> !reaches(es, (#[trigger] es[k]).zu, es[k].von)),
            i <= edges.len(),
            forall|k: int| 0 <= k < i ==> !reaches(es, (#[trigger] es[k]).zu, es[k].von),
        decreases edges.len() - i,
    {
        assert(es[i as int] == edges@[i as int]@);
        if would_cycle(edges, &edges[i].von, &edges[i].zu) {
            return true;
        }
        i += 1;
    }
    false
}

/// A path along old edges and one new one, to where the new one begins, has a path
/// along old edges in its place.
proof fn lemma_without_new(edges: Seq<EdgeView>, e: EdgeView, p: Seq<Seq<char>>)
    requires
        is_path(edges.push(e), p),
        p.last() == e.von,
    ensures
        reaches(edges, p[0], e.von),
    decreases p.len(),
{
    if p.len() == 1 {
        lemma_reaches_self(edges, e.von);
    } else {
        assert(steps(edges.push(e), p, 0));
        if linked(edges, p[0], p[1]) {
            let q = p.skip(1);
            assert forall|i: int| 0 <= i < q.len() - 1 implies #[trigger] steps(
                edges.push(e),
                q,
                i,
            ) by {
                assert(steps(edges.push(e), p, i + 1));
            }
            lemma_without_new(edges, e, q);
            lemma_reaches_before(edges, p[0], p[1], e.von);
        } else {
            lemma_new_step(edges, e, p[0], p[1]);
            lemma_reaches_self(edges, e.von);
        }
    }
}

proof fn lemma_new_step(edges: Seq<EdgeView>, e: EdgeView, a: Seq<char>, b: Seq<char>)
    requires
        linked(edges.push(e), a, b),
        !linked(edges, a, b),
    ensures
        a == e.von && b == e.zu,
{
    let k = choose|k: int|
        0 <= k < edges.push(e).len() && (#[trigger] edges.push(e)[k]).von == a && edges.push(
            e,
        )[k].zu == b;
    if k < edges.len() {
        assert(edges[k].von == a && edges[k].zu == b);
    }
}

/// An edge that closes no cycle keeps the graph without cycles.
pub proof fn new_edge_keeps_acyclic(edges: Seq<EdgeView>, e: EdgeView)
    requires
        acyclic(edges),
        !reaches(edges, e.zu, e.von),
    ensures
        acyclic(edges.push(e)),
{
    let all = edges.push(e);
    assert forall|p: Seq<Seq<char>>| #[trigger] is_path(all, p) && p.len() >= 2 implies p[0]
        != p.last() by {
        if p[0] == p.last() {
            if forall|i: int| 0 <= i < p.len() - 1 ==> #[trigger] steps(edges, p, i) {
                assert(is_path(edges, p));
            } else {
                let i = choose|i: int| 0 <= i < p.len() - 1 && !(#[trigger] steps(edges, p, i));
                assert(steps(all, p, i));
                lemma_new_step(edges, e, p[i], p[i + 1]);
                let q = p.subrange(i + 1, p.len() as int) + p.subrange(1, i + 1);
                let m = p.len() - i - 1;
                assert forall|j: int| 0 <= j < q.len() - 1 implies #[trigger] steps(all, q, j) by {
                    if j < m - 1 {
                        assert(steps(all, p, i + 1 + j));
                    } else {
                        assert(q[j] == p[j - m + 1]);
                        assert(steps(all, p, j - m + 1));
                    }
                }
                assert(q.last() == e.von);
                lemma_without_new(edges, e, q);
            }
        }
    }
}

/// Taking edges away keeps the graph without cycles.
pub proof fn fewer_edges_keep_acyclic(edges: Seq<EdgeView>, fewer: Seq<EdgeView>)
    requires
        acyclic(edges),
        forall|i: int| 0 <= i < fewer.len() ==> edges.contains(#[trigger] fewer[i]),
    ensures
        acyclic(fewer),
{
    assert forall|p: Seq<Seq<char>>| #[trigger] is_path(fewer, p) && p.len() >= 2 implies p[0]
        != p.last() by {
        assert forall|i: int| 0 <= i < p.len() - 1 implies #[trigger] steps(edges, p, i) by {
            assert(steps(fewer, p, i));
            let k = choose|k: int|
                0 <= k < fewer.len() && (#[trigger] fewer[k]).von == p[i] && fewer[k].zu == p[i
                    + 1];
            let j = choose|j: int| 0 <= j < edges.len() && edges[j] == fewer[k];
            assert(edges[j].von == p[i]);
        }
        assert(is_path(edges, p));
    }
}

} // verus!
