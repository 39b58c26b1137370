//! An order of the nodes in which evidence comes before what rests on it.

use vstd::prelude::*;

use crate::seqs::lemma_bounded_len;
use crate::store::cycles::{acyclic, is_path, linked, steps};
use crate::store::model::{edge_views, Edge, EdgeView, GraphView, KnowledgeGraph};
use crate::text::texts;

verus! {

/// The edges whose ends are both nodes of the graph.
pub open spec fn live_edges(g: GraphView) -> Seq<EdgeView> {
    g.edges.filter(|e: EdgeView| g.has_node(e.von) && g.has_node(e.zu))
}

/// The ids of the graph's nodes, each once.
pub open spec fn lists_nodes(g: GraphView, order: Seq<Seq<char>>) -> bool {
    &&& order.no_duplicates()
    &&& forall|id: Seq<char>| #[trigger] order.contains(id) == g.has_node(id)
}

/// The id stands among the first `n` of a list.
pub open spec fn among(order: Seq<Seq<char>>, n: int, id: Seq<char>) -> bool {
    exists|k: int| 0 <= k < n && k < order.len() && #[trigger] order[k] == id
}

/// The nodes that bear on a node stand before it.
pub open spec fn evidence_first(g: GraphView, order: Seq<Seq<char>>) -> bool {
    forall|i: int, k: int|
        0 <= i < order.len() && 0 <= k < g.edges.len() && (#[trigger] g.edges[k]).von
            == #[trigger] order[i] && g.has_node(g.edges[k].zu) ==> among(order, i, g.edges[k].zu)
}

/// Along the edges between nodes no cycle is reached from the node.
pub open spec fn reaches_no_cycle(g: GraphView, id: Seq<char>) -> bool {
    forall|p: Seq<Seq<char>>| #[trigger]
        is_path(live_edges(g), p) && p[0] == id ==> p.no_duplicates()
}

/// The nodes that bear on a node from which no cycle is reached stand before it.
pub open spec fn evidence_first_off_cycles(g: GraphView, order: Seq<Seq<char>>) -> bool {
    forall|i: int, k: int|
        0 <= i < order.len() && 0 <= k < g.edges.len() && (#[trigger] g.edges[k]).von
            == #[trigger] order[i] && g.has_node(g.edges[k].zu) && reaches_no_cycle(g, order[i])
            ==> among(order, i, g.edges[k].zu)
}

// ---- ordering numbered nodes ----

/// A link leads from `a` to `b`.
spec fn tied(links: Seq<(usize, usize)>, a: int, b: int) -> bool {
    exists|k: int|
        0 <= k < links.len() && (#[trigger] links[k]).0 == a && links[k].1 == b
}

spec fn ties(links: Seq<(usize, usize)>, p: Seq<int>, i: int) -> bool {
    tied(links, p[i], p[i + 1])
}

spec fn chain(links: Seq<(usize, usize)>, p: Seq<int>) -> bool {
    p.len() > 0 && forall|i: int| 0 <= i < p.len() - 1 ==> #[trigger] ties(links, p, i)
}

spec fn loopless(links: Seq<(usize, usize)>) -> bool {
    forall|p: Seq<int>| #[trigger] chain(links, p) && p.len() >= 2 ==> p[0] != p.last()
}

/// No chain from the number comes to one place twice.
spec fn firm(links: Seq<(usize, usize)>, i: int) -> bool {
    forall|p: Seq<int>| #[trigger] chain(links, p) && p[0] == i ==> p.no_duplicates()
}

/// A number that is not placed and can go on to another such number.
spec fn stuck(links: Seq<(usize, usize)>, placed: Seq<bool>, i: int) -> bool {
    exists|c: int| 0 <= c < placed.len() && !placed[c] && #[trigger] tied(links, i, c)
}

/// From a stuck place, chains of any length.
proof fn lemma_long_chain(
    links: Seq<(usize, usize)>,
    placed: Seq<bool>,
    i: int,
    m: nat,
) -> (p: Seq<int>)
    requires
        0 <= i < placed.len(),
        !placed[i],
        forall|k: int| 0 <= k < placed.len() && !placed[k] ==> #[trigger] stuck(links, placed, k),
    ensures
        chain(links, p),
        p.len() == m + 1,
        p[0] == i,
        forall|k: int| 0 <= k < p.len() ==> 0 <= #[trigger] p[k] < placed.len(),
    decreases m,
{
    if m == 0 {
        seq![i]
    } else {
        assert(stuck(links, placed, i));
        let c = choose|c: int| 0 <= c < placed.len() && !placed[c] && #[trigger] tied(links, i, c);
        let q = lemma_long_chain(links, placed, c, (m - 1) as nat);
        let p = seq![i] + q;
        assert forall|k: int| 0 <= k < p.len() - 1 implies #[trigger] ties(links, p, k) by {
            if k > 0 {
                assert(ties(links, q, k - 1));
            }
        }
        assert forall|k: int| 0 <= k < p.len() implies 0 <= #[trigger] p[k] < placed.len() by {
            if k > 0 {
                assert(p[k] == q[k - 1]);
            }
        }
        p
    }
}

/// What cannot be placed is on a loop or leads to one.
proof fn lemma_stuck_is_loose(links: Seq<(usize, usize)>, placed: Seq<bool>, i: int)
    requires
        0 <= i < placed.len(),
        !placed[i],
        forall|k: int| 0 <= k < placed.len() && !placed[k] ==> #[trigger] stuck(links, placed, k),
    ensures
        !loopless(links),
        !firm(links, i),
{
    let p = lemma_long_chain(links, placed, i, placed.len());
    if p.no_duplicates() {
        lemma_bounded_len(p, placed.len() as int);
    }
    let (x, y) = choose|x: int, y: int|
        0 <= x < p.len() && 0 <= y < p.len() && x != y && p[x] == p[y];
    let a = if x < y {
        x
    } else {
        y
    };
    let b = if x < y {
        y
    } else {
        x
    };
    let q = p.subrange(a, b + 1);
    assert forall|k: int| 0 <= k < q.len() - 1 implies #[trigger] ties(links, q, k) by {
        assert(ties(links, p, a + k));
    }
    assert(chain(links, q));
    assert(q[0] == q.last());
}

/// The number stands among the first `n` of a list.
spec fn stands(order: Seq<usize>, n: int, c: int) -> bool {
    exists|k: int| 0 <= k < n && k < order.len() && #[trigger] order[k] == c
}

/// What each number of the list is tied to stands before it.
spec fn settled(links: Seq<(usize, usize)>, order: Seq<usize>) -> bool {
    forall|i: int, k: int|
        0 <= i < order.len() && 0 <= k < links.len() && (#[trigger] links[k]).0
            == #[trigger] order[i] ==> stands(order, i, links[k].1 as int)
}

/// What each firm number of the list is tied to stands before it.
spec fn firm_settled(links: Seq<(usize, usize)>, order: Seq<usize>) -> bool {
    forall|i: int, k: int|
        0 <= i < order.len() && 0 <= k < links.len() && (#[trigger] links[k]).0
            == #[trigger] order[i] && firm(links, order[i] as int) ==> stands(
            order,
            i,
            links[k].1 as int,
        )
}

/// The list holds exactly the placed numbers, each once.
spec fn holds_placed(order: Seq<usize>, placed: Seq<bool>) -> bool {
    &&& order.no_duplicates()
    &&& forall|k: int| 0 <= k < order.len() ==> #[trigger] order[k] < placed.len()
    &&& forall|c: int|
        0 <= c < placed.len() ==> #[trigger] placed[c] == stands(order, order.len() as int, c)
}

proof fn lemma_place(order: Seq<usize>, placed: Seq<bool>, i: usize)
    requires
        holds_placed(order, placed),
        i < placed.len(),
        !placed[i as int],
    ensures
        holds_placed(order.push(i), placed.update(i as int, true)),
{
    let o = order.push(i);
    let q = placed.update(i as int, true);
    assert forall|x: int, y: int| 0 <= x < o.len() && 0 <= y < o.len() && x != y implies o[x]
        != o[y] by {
        assert(placed[i as int] == stands(order, order.len() as int, i as int));
        if x == order.len() {
            assert(order[y] != i);
        } else if y == order.len() {
            assert(order[x] != i);
        }
    }
    assert forall|c: int| 0 <= c < q.len() implies #[trigger] q[c] == stands(
        o,
        o.len() as int,
        c,
    ) by {
        assert(placed[c] == stands(order, order.len() as int, c));
        if stands(order, order.len() as int, c) {
            let k = choose|k: int|
                0 <= k < order.len() && k < order.len() && #[trigger] order[k] == c;
            assert(o[k] == c);
        }
        if c == i {
            assert(o[order.len() as int] == c);
        }
        if stands(o, o.len() as int, c) && c != i {
            let k = choose|k: int| 0 <= k < o.len() && k < o.len() && #[trigger] o[k] == c;
            assert(order[k] == c);
        }
    }
}

proof fn lemma_settled_push(links: Seq<(usize, usize)>, order: Seq<usize>, i: usize)
    requires
        settled(links, order),
        forall|k: int|
            0 <= k < links.len() && (#[trigger] links[k]).0 == i ==> stands(
                order,
                order.len() as int,
                links[k].1 as int,
            ),
    ensures
        settled(links, order.push(i)),
{
    let o = order.push(i);
    assert forall|x: int, k: int|
        0 <= x < o.len() && 0 <= k < links.len() && (#[trigger] links[k]).0
            == #[trigger] o[x] implies stands(o, x, links[k].1 as int) by {
        let c = links[k].1 as int;
        if x < order.len() {
            assert(order[x] == o[x]);
            assert(stands(order, x, c));
            let j = choose|j: int| 0 <= j < x && j < order.len() && #[trigger] order[j] == c;
            assert(o[j] == c);
        } else {
            let j = choose|j: int|
                0 <= j < order.len() && j < order.len() && #[trigger] order[j] == c;
            assert(o[j] == c);
        }
    }
}

/// Whether everything that `i` is tied to is placed.
fn is_ready(links: &Vec<(usize, usize)>, placed: &Vec<bool>, i: usize) -> (r: bool)
    requires
        forall|k: int| 0 <= k < links@.len() ==> (#[trigger] links@[k]).1 < placed@.len(),
    ensures
        r ==> forall|k: int|
            0 <= k < links@.len() && (#[trigger] links@[k]).0 == i ==> placed@[links@[k].1 as int],
        !r ==> stuck(links@, placed@, i as int),
{
    let mut k: usize = 0;
    while k < links.len()
        invariant
            k <= links.len(),
            forall|k: int| 0 <= k < links@.len() ==> (#[trigger] links@[k]).1 < placed@.len(),
            forall|j: int|
                0 <= j < k && (#[trigger] links@[j]).0 == i ==> placed@[links@[j].1 as int],
        decreases links.len() - k,
    {
        if links[k].0 == i && !placed[links[k].1] {
            assert(tied(links@, i as int, links@[k as int].1 as int));
            return false;
        }
        k += 1;
    }
    true
}

/// Orders the numbers below `n` so that what a number is tied to comes before it, as
/// far as that is possible. Numbers on a loop, and those that lead to one, come last.
fn order_numbers(n: usize, links: &Vec<(usize, usize)>) -> (order: Vec<usize>)
    requires
        forall|k: int| 0 <= k < links@.len() ==> (#[trigger] links@[k]).1 < n,
    ensures
        order@.no_duplicates(),
        forall|k: int| 0 <= k < order@.len() ==> #[trigger] order@[k] < n,
        forall|c: int| 0 <= c < n ==> #[trigger] stands(order@, order@.len() as int, c),
        loopless(links@) ==> settled(links@, order@),
        firm_settled(links@, order@),
{
    let mut placed: Vec<bool> = Vec::new();
    let mut i: usize = 0;
    while i < n
        invariant
            i <= n,
            placed.len() == i,
            forall|k: int| 0 <= k < i ==> !(#[trigger] placed@[k]),
        decreases n - i,
    {
        placed.push(false);
        i += 1;
    }
    let mut order: Vec<usize> = Vec::new();
    let mut moving: bool = true;
    while moving
        invariant
            placed.len() == n,
            forall|k: int| 0 <= k < links@.len() ==> (#[trigger] links@[k]).1 < n,
            holds_placed(order@, placed@),
            settled(links@, order@),
            order@.len() <= n,
            !moving ==> forall|k: int|
                0 <= k < n && !placed@[k] ==> #[trigger] stuck(links@, placed@, k),
        decreases n - order@.len(), moving as int,
    {
        moving = false;
        let ghost start = order@.len();
        let ghost placed0 = placed@;
        let mut i: usize = 0;
        while i < n
            invariant
                i <= n,
                placed.len() == n,
                forall|k: int| 0 <= k < links@.len() ==> (#[trigger] links@[k]).1 < n,
                holds_placed(order@, placed@),
                settled(links@, order@),
                start <= order@.len() <= n,
                moving ==> order@.len() > start,
                !moving ==> placed@ == placed0 && forall|k: int|
                    0 <= k < i && !placed@[k] ==> #[trigger] stuck(links@, placed@, k),
            decreases n - i,
        {
            if !placed[i] && is_ready(links, &placed, i) {
                proof {
                    lemma_place(order@, placed@, i);
                    assert forall|k: int|
                        0 <= k < links@.len() && (#[trigger] links@[k]).0 == i implies stands(
                        order@,
                        order@.len() as int,
                        links@[k].1 as int,
                    ) by {
                        assert(placed@[links@[k].1 as int]);
                    }
                    lemma_settled_push(links@, order@, i);
                }
                order.push(i);
                placed.set(i, true);
                moving = true;
                proof {
                    lemma_order_len(order@, n as int);
                }
            }
            i += 1;
        }
    }
    proof {
        if loopless(links@) {
            assert forall|k: int| 0 <= k < n implies placed@[k] by {
                if !placed@[k] {
                    lemma_stuck_is_loose(links@, placed@, k);
                }
            }
        }
    }
    let ghost ready = order@;
    let ghost placed1 = placed@;
    proof {
        assert forall|k: int| 0 <= k < n && !placed1[k] implies !#[trigger] firm(links@, k) by {
            lemma_stuck_is_loose(links@, placed1, k);
        }
    }
    let mut i: usize = 0;
    while i < n
        invariant
            i <= n,
            placed.len() == n,
            placed1.len() == n,
            holds_placed(order@, placed@),
            forall|k: int| 0 <= k < i ==> #[trigger] placed@[k],
            forall|k: int| i <= k < n ==> #[trigger] placed@[k] == placed1[k],
            settled(links@, ready),
            ready.len() <= order@.len(),
            order@.take(ready.len() as int) == ready,
            forall|k: int| 0 <= k < n && !placed1[k] ==> !#[trigger] firm(links@, k),
            forall|x: int|
                ready.len() <= x < order@.len() ==> !firm(links@, #[trigger] order@[x] as int),
            loopless(links@) ==> order@ == ready && settled(links@, ready) && forall|k: int|
                0 <= k < n ==> #[trigger] placed@[k],
        decreases n - i,
    {
        if !placed[i] {
            proof {
                lemma_place(order@, placed@, i);
                assert(!placed1[i as int]);
                assert(!firm(links@, i as int));
                assert(order@.push(i).take(ready.len() as int) =~= ready);
            }
            order.push(i);
            placed.set(i, true);
        }
        i += 1;
    }
    assert forall|i: int, k: int|
        0 <= i < order@.len() && 0 <= k < links@.len() && (#[trigger] links@[k]).0
            == #[trigger] order@[i] && firm(links@, order@[i] as int) implies stands(
        order@,
        i,
        links@[k].1 as int,
    ) by {
        assert(i < ready.len());
        assert(ready[i] == order@[i]);
        assert(stands(ready, i, links@[k].1 as int));
        let j = choose|j: int|
            0 <= j < i && j < ready.len() && #[trigger] ready[j] == links@[k].1 as int;
        assert(order@[j] == ready[j]);
    }
    assert forall|c: int| 0 <= c < n implies #[trigger] stands(
        order@,
        order@.len() as int,
        c,
    ) by {
        assert(placed@[c]);
    }
    order
}

proof fn lemma_order_len(order: Seq<usize>, n: int)
    requires
        order.no_duplicates(),
        0 <= n,
        forall|k: int| 0 <= k < order.len() ==> #[trigger] order[k] < n,
    ensures
        order.len() <= n,
{
    let s = order.map_values(|x: usize| x as int);
    assert(s.no_duplicates());
    lemma_bounded_len(s, n);
}

// ---- ordering the nodes of a graph ----

fn position(ids: &Vec<String>, id: &String) -> (r: Option<usize>)
    ensures
        match r {
            Some(i) => i < ids.len() && ids@[i as int]@ == id@,
            None => !texts(ids@).contains(id@),
        },
{
    let mut i: usize = 0;
    while i < ids.len()
        invariant
            i <= ids.len(),
            forall|k: int| 0 <= k < i ==> (#[trigger] ids@[k])@ != id@,
        decreases ids.len() - i,
    {
        if ids[i] == *id {
            return Some(i);
        }
        i += 1;
    }
    assert(!texts(ids@).contains(id@)) by {
        if texts(ids@).contains(id@) {
            let k = choose|k: int| 0 <= k < texts(ids@).len() && texts(ids@)[k] == id@;
            assert(ids@[k]@ == id@);
        }
    }
    None
}

fn distinct_ids(graph: &KnowledgeGraph) -> (r: Vec<String>)
    ensures
        lists_nodes(graph@, texts(r@)),
{
    let ghost g = graph@;
    let mut out: Vec<String> = Vec::new();
    let mut i: usize = 0;
    while i < graph.nodes.len()
        invariant
            g == graph@,
            i <= graph.nodes.len(),
            texts(out@).no_duplicates(),
            forall|id: Seq<char>|
                #[trigger] texts(out@).contains(id) == exists|k: int|
                    0 <= k < i && (#[trigger] g.nodes[k]).id == id,
        decreases graph.nodes.len() - i,
    {
        assert(g.nodes[i as int] == graph.nodes@[i as int]@);
        let ghost before = texts(out@);
        let ghost x = g.nodes[i as int].id;
        if position(&out, &graph.nodes[i].id).is_none() {
            out.push(graph.nodes[i].id.clone());
            proof {
                assert(texts(out@) =~= before.push(x));
                assert forall|a: int, b: int|
                    0 <= a < texts(out@).len() && 0 <= b < texts(out@).len() && a
                        != b implies texts(out@)[a] != texts(out@)[b] by {
                    if a == before.len() {
                        assert(before[b] != x);
                    } else if b == before.len() {
                        assert(before[a] != x);
                    }
                }
            }
        } else {
            assert(before.contains(x)) by {
                if !before.contains(x) {
                    let j = choose|j: int| 0 <= j < out@.len() && out@[j]@ == x;
                    assert(before[j] == x);
                }
            }
        }
        proof {
            assert forall|id: Seq<char>| #[trigger] texts(out@).contains(id) == exists|k: int|
                0 <= k < i + 1 && (#[trigger] g.nodes[k]).id == id by {
                if texts(out@).contains(id) {
                    let j = choose|j: int| 0 <= j < texts(out@).len() && texts(out@)[j] == id;
                    if j < before.len() {
                        assert(before[j] == id);
                        assert(before.contains(id));
                    } else {
                        assert(g.nodes[i as int].id == id);
                    }
                }
                if exists|k: int| 0 <= k < i + 1 && (#[trigger] g.nodes[k]).id == id {
                    let k = choose|k: int| 0 <= k < i + 1 && (#[trigger] g.nodes[k]).id == id;
                    if k < i || before.contains(x) {
                        assert(before.contains(id));
                        let j = choose|j: int| 0 <= j < before.len() && before[j] == id;
                        assert(texts(out@)[j] == id);
                    } else {
                        assert(texts(out@)[before.len() as int] == id);
                    }
                }
            }
        }
        i += 1;
    }
    assert forall|id: Seq<char>| #[trigger] texts(out@).contains(id) == g.has_node(id) by {
        if g.has_node(id) {
            let k = choose|k: int| 0 <= k < g.nodes.len() && (#[trigger] g.nodes[k]).id == id;
            assert(0 <= k < graph.nodes.len());
        }
    }
    out
}

/// Each link stands for a live edge, and each live edge has one.
spec fn links_match(edges: Seq<EdgeView>, n: int, ids: Seq<Seq<char>>, links: Seq<(usize, usize)>) -> bool {
    &&& forall|k: int|
        0 <= k < links.len() ==> (#[trigger] links[k]).0 < ids.len() && links[k].1 < ids.len()
            && linked(edges, ids[links[k].0 as int], ids[links[k].1 as int])
    &&& forall|j: int|
        0 <= j < n && ids.contains((#[trigger] edges[j]).von) && ids.contains(edges[j].zu)
            ==> exists|k: int|
            0 <= k < links.len() && ids[(#[trigger] links[k]).0 as int] == edges[j].von
                && ids[links[k].1 as int] == edges[j].zu
}

fn number_links(edges: &Vec<Edge>, ids: &Vec<String>) -> (links: Vec<(usize, usize)>)
    ensures
        links_match(edge_views(edges@), edges@.len() as int, texts(ids@), links@),
{
    let ghost es = edge_views(edges@);
    let ghost names = texts(ids@);
    let mut links: Vec<(usize, usize)> = Vec::new();
    let mut j: usize = 0;
    while j < edges.len()
        invariant
            es == edge_views(edges@),
            names == texts(ids@),
            j <= edges.len(),
            links_match(es, j as int, names, links@),
        decreases edges.len() - j,
    {
        assert(es[j as int] == edges@[j as int]@);
        let ghost before = links@;
        match (position(ids, &edges[j].von), position(ids, &edges[j].zu)) {
            (Some(a), Some(b)) => {
                links.push((a, b));
                proof {
                    assert(names[a as int] == es[j as int].von && names[b as int]
                        == es[j as int].zu);
                    assert(linked(es, es[j as int].von, es[j as int].zu));
                    assert forall|i: int|
                        0 <= i < j + 1 && names.contains((#[trigger] es[i]).von) && names.contains(
                            es[i].zu,
                        ) implies exists|k: int|
                        0 <= k < links@.len() && names[(#[trigger] links@[k]).0 as int]
                            == es[i].von && names[links@[k].1 as int] == es[i].zu by {
                        if i < j {
                            let k = choose|k: int|
                                0 <= k < before.len() && names[(#[trigger] before[k]).0 as int]
                                    == es[i].von && names[before[k].1 as int] == es[i].zu;
                            assert(links@[k] == before[k]);
                        } else {
                            assert(links@[before.len() as int] == (a, b));
                        }
                    }
                }
            },
            _ => {},
        }
        j += 1;
    }
    links
}

/// A chain of numbers is a path of nodes.
proof fn lemma_chain_is_path(
    g: GraphView,
    ids: Seq<Seq<char>>,
    links: Seq<(usize, usize)>,
    p: Seq<int>,
)
    requires
        lists_nodes(g, ids),
        links_match(g.edges, g.edges.len() as int, ids, links),
        chain(links, p),
    ensures
        is_path(live_edges(g), p.map_values(|i: int| ids[i])),
{
    let live = live_edges(g);
    let q = p.map_values(|i: int| ids[i]);
    assert forall|i: int| 0 <= i < q.len() - 1 implies #[trigger] steps(live, q, i) by {
        assert(ties(links, p, i));
        let k = choose|k: int|
            0 <= k < links.len() && (#[trigger] links[k]).0 == p[i] && links[k].1 == p[i + 1];
        assert(linked(g.edges, ids[links[k].0 as int], ids[links[k].1 as int]));
        let j = choose|j: int|
            0 <= j < g.edges.len() && (#[trigger] g.edges[j]).von == q[i] && g.edges[j].zu
                == q[i + 1];
        assert(ids.contains(q[i]) && ids.contains(q[i + 1]));
        let live_edge = |e: EdgeView| g.has_node(e.von) && g.has_node(e.zu);
        assert(live_edge(g.edges[j]));
        crate::seqs::lemma_filter_complete(g.edges, live_edge, j);
        let m = choose|m: int| 0 <= m < live.len() && live[m] == g.edges[j];
        assert(live[m].von == q[i]);
    }
}

/// Without cycles among the nodes there are none among their numbers.
proof fn lemma_loopless(g: GraphView, ids: Seq<Seq<char>>, links: Seq<(usize, usize)>)
    requires
        acyclic(live_edges(g)),
        lists_nodes(g, ids),
        links_match(g.edges, g.edges.len() as int, ids, links),
    ensures
        loopless(links),
{
    assert forall|p: Seq<int>| #[trigger] chain(links, p) && p.len() >= 2 implies p[0]
        != p.last() by {
        lemma_chain_is_path(g, ids, links, p);
        let q = p.map_values(|i: int| ids[i]);
        assert(is_path(live_edges(g), q));
    }
}

/// The number of a node from which no cycle is reached is firm.
proof fn lemma_firm(g: GraphView, ids: Seq<Seq<char>>, links: Seq<(usize, usize)>, i: int)
    requires
        lists_nodes(g, ids),
        links_match(g.edges, g.edges.len() as int, ids, links),
        reaches_no_cycle(g, ids[i]),
    ensures
        firm(links, i),
{
    assert forall|p: Seq<int>| #[trigger] chain(links, p) && p[0] == i implies p.no_duplicates() by {
        lemma_chain_is_path(g, ids, links, p);
        let q = p.map_values(|i: int| ids[i]);
        assert(is_path(live_edges(g), q) && q[0] == ids[i]);
        assert(q.no_duplicates());
        assert forall|x: int, y: int|
            0 <= x < p.len() && 0 <= y < p.len() && x != y implies p[x] != p[y] by {
            assert(q[x] != q[y]);
        }
    }
}

/// Orders the nodes of a graph: each id once, and what bears on a node before it, unless
/// a cycle is reached from there.
pub fn order_nodes(graph: &KnowledgeGraph) -> (r: Vec<String>)
    ensures
        lists_nodes(graph@, texts(r@)),
        acyclic(live_edges(graph@)) ==> evidence_first(graph@, texts(r@)),
        evidence_first_off_cycles(graph@, texts(r@)),
{
    let ghost g = graph@;
    let ids: Vec<String> = distinct_ids(graph);
    let ghost names = texts(ids@);
    let links: Vec<(usize, usize)> = number_links(&graph.edges, &ids);
    let order: Vec<usize> = order_numbers(ids.len(), &links);
    let mut out: Vec<String> = Vec::new();
    let mut i: usize = 0;
    while i < order.len()
        invariant
            i <= order.len(),
            forall|k: int| 0 <= k < order@.len() ==> #[trigger] order@[k] < ids@.len(),
            out.len() == i,
            forall|k: int| 0 <= k < i ==> (#[trigger] out@[k])@ == ids@[order@[k] as int]@,
        decreases order.len() - i,
    {
        out.push(ids[order[i]].clone());
        i += 1;
    }
    let ghost res = texts(out@);
    proof {
        assert forall|k: int| 0 <= k < res.len() implies #[trigger] res[k]
            == names[order@[k] as int] by {
            assert(out@[k]@ == ids@[order@[k] as int]@);
        }
        assert forall|a: int, b: int|
            0 <= a < res.len() && 0 <= b < res.len() && a != b implies res[a] != res[b] by {
            assert(order@[a] != order@[b]);
            assert(names[order@[a] as int] != names[order@[b] as int]);
        }
        assert forall|id: Seq<char>| #[trigger] res.contains(id) == g.has_node(id) by {
            assert(names.contains(id) == g.has_node(id));
            if res.contains(id) {
                let k = choose|k: int| 0 <= k < res.len() && res[k] == id;
                assert(names[order@[k] as int] == id);
            }
            if names.contains(id) {
                let c = choose|c: int| 0 <= c < names.len() && names[c] == id;
                assert(stands(order@, order@.len() as int, c));
                let k = choose|k: int|
                    0 <= k < order@.len() && k < order@.len() && #[trigger] order@[k] == c;
                assert(res[k] == id);
            }
        }
        assert forall|i: int, k: int|
            0 <= i < res.len() && 0 <= k < g.edges.len() && (#[trigger] g.edges[k]).von
                == #[trigger] res[i] && g.has_node(g.edges[k].zu) && reaches_no_cycle(
                g,
                res[i],
            ) implies among(res, i, g.edges[k].zu) by {
            let e = g.edges[k];
            assert(res.contains(e.von));
            assert(names.contains(e.von) && names.contains(e.zu));
            let m = choose|m: int|
                0 <= m < links@.len() && names[(#[trigger] links@[m]).0 as int] == e.von
                    && names[links@[m].1 as int] == e.zu;
            assert(names[order@[i] as int] == names[links@[m].0 as int]);
            assert(links@[m].0 == order@[i]);
            lemma_firm(g, names, links@, order@[i] as int);
            assert(stands(order@, i, links@[m].1 as int));
            let j = choose|j: int|
                0 <= j < i && j < order@.len() && #[trigger] order@[j] == links@[m].1;
            assert(res[j] == e.zu);
        }
        if acyclic(live_edges(g)) {
            lemma_loopless(g, names, links@);
            assert forall|i: int, k: int|
                0 <= i < res.len() && 0 <= k < g.edges.len() && (#[trigger] g.edges[k]).von
                    == #[trigger] res[i] && g.has_node(g.edges[k].zu) implies among(
                res,
                i,
                g.edges[k].zu,
            ) by {
                let e = g.edges[k];
                assert(res.contains(e.von));
                assert(names.contains(e.von) && names.contains(e.zu));
                let m = choose|m: int|
                    0 <= m < links@.len() && names[(#[trigger] links@[m]).0 as int] == e.von
                        && names[links@[m].1 as int] == e.zu;
                assert(names[order@[i] as int] == names[links@[m].0 as int]);
                assert(links@[m].0 == order@[i]);
                assert(stands(order@, i, links@[m].1 as int));
                let j = choose|j: int|
                    0 <= j < i && j < order@.len() && #[trigger] order@[j] == links@[m].1;
                assert(res[j] == e.zu);
            }
        }
    }
    out
}

} // verus!
