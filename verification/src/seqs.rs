//! Facts about sequences that filters and copies of lists rest on.

use vstd::prelude::*;

verus! {

/// A filter over one more item.
pub proof fn lemma_filter_push<T>(s: Seq<T>, x: T, p: spec_fn(T) -> bool)
    ensures
        s.push(x).filter(p) == (if p(x) {
            s.filter(p).push(x)
        } else {
            s.filter(p)
        }),
{
    reveal(Seq::filter);
    assert(s.push(x).drop_last() =~= s);
}

/// A filter over one more item of a longer sequence.
pub proof fn lemma_filter_take<T>(s: Seq<T>, i: int, p: spec_fn(T) -> bool)
    requires
        0 <= i < s.len(),
    ensures
        s.take(i + 1).filter(p) == (if p(s[i]) {
            s.take(i).filter(p).push(s[i])
        } else {
            s.take(i).filter(p)
        }),
{
    assert(s.take(i + 1) =~= s.take(i).push(s[i]));
    lemma_filter_push(s.take(i), s[i], p);
}

/// Filtering commutes with a view where the tests agree.
pub proof fn lemma_filter_map<T, V>(
    s: Seq<T>,
    f: spec_fn(T) -> V,
    p: spec_fn(T) -> bool,
    q: spec_fn(V) -> bool,
)
    requires
        forall|i: int| 0 <= i < s.len() ==> p(#[trigger] s[i]) == q(f(s[i])),
    ensures
        s.filter(p).map_values(f) == s.map_values(f).filter(q),
    decreases s.len(),
{
    if s.len() == 0 {
        reveal(Seq::filter);
        assert(s.filter(p).map_values(f) =~= s.map_values(f).filter(q));
    } else {
        let t = s.drop_last();
        lemma_filter_map(t, f, p, q);
        assert(s =~= t.push(s.last()));
        lemma_filter_push(t, s.last(), p);
        lemma_filter_push(t.map_values(f), f(s.last()), q);
        assert(s.map_values(f) =~= t.map_values(f).push(f(s.last())));
        assert(t.filter(p).push(s.last()).map_values(f) =~= t.filter(p).map_values(f).push(
            f(s.last()),
        ));
    }
}

/// What a filter keeps was there and passes the test.
pub proof fn lemma_filter_sound<T>(s: Seq<T>, p: spec_fn(T) -> bool)
    ensures
        s.filter(p).len() <= s.len(),
        forall|i: int|
            0 <= i < s.filter(p).len() ==> p(#[trigger] s.filter(p)[i]) && s.contains(
                s.filter(p)[i],
            ),
    decreases s.len(),
{
    reveal(Seq::filter);
    if s.len() > 0 {
        let t = s.drop_last();
        lemma_filter_sound(t, p);
        assert forall|i: int| 0 <= i < s.filter(p).len() implies p(#[trigger] s.filter(p)[i])
            && s.contains(s.filter(p)[i]) by {
            if i < t.filter(p).len() {
                assert(s.filter(p)[i] == t.filter(p)[i]);
                let k = choose|k: int| 0 <= k < t.len() && t[k] == t.filter(p)[i];
                assert(s[k] == t.filter(p)[i]);
            } else {
                assert(s[s.len() - 1] == s.filter(p)[i]);
            }
        }
    }
}

/// A filter keeps everything that passes the test.
pub proof fn lemma_filter_complete<T>(s: Seq<T>, p: spec_fn(T) -> bool, i: int)
    requires
        0 <= i < s.len(),
        p(s[i]),
    ensures
        s.filter(p).contains(s[i]),
    decreases s.len(),
{
    reveal(Seq::filter);
    let t = s.drop_last();
    if i == s.len() - 1 {
        assert(s.filter(p)[t.filter(p).len() as int] == s[i]);
    } else {
        lemma_filter_complete(t, p, i);
        let k = choose|k: int| 0 <= k < t.filter(p).len() && t.filter(p)[k] == t[i];
        assert(s.filter(p)[k] == s[i]);
    }
}

/// A filter that everything passes changes nothing; any other one shortens.
pub proof fn lemma_filter_len<T>(s: Seq<T>, p: spec_fn(T) -> bool)
    ensures
        s.filter(p).len() == s.len() <==> forall|i: int| 0 <= i < s.len() ==> p(#[trigger] s[i]),
        s.filter(p).len() == s.len() ==> s.filter(p) == s,
        s.filter(p).len() <= s.len(),
    decreases s.len(),
{
    reveal(Seq::filter);
    if s.len() > 0 {
        let t = s.drop_last();
        lemma_filter_len(t, p);
        if s.filter(p).len() == s.len() {
            assert(s.filter(p) =~= s);
            assert forall|i: int| 0 <= i < s.len() implies p(#[trigger] s[i]) by {
                if i < t.len() {
                    assert(p(t[i]));
                }
            }
        }
        if forall|i: int| 0 <= i < s.len() ==> p(#[trigger] s[i]) {
            assert forall|i: int| 0 <= i < t.len() implies p(#[trigger] t[i]) by {
                assert(p(s[i]));
            }
        }
    } else {
        assert(s.filter(p) =~= s);
    }
}

/// Different numbers below a bound are no more than the bound.
pub proof fn lemma_bounded_len(s: Seq<int>, n: int)
    requires
        0 <= n,
        s.no_duplicates(),
        forall|i: int| 0 <= i < s.len() ==> 0 <= #[trigger] s[i] < n,
    ensures
        s.len() <= n,
{
    vstd::set_lib::lemma_int_range(0, n);
    s.unique_seq_to_set();
    assert(s.to_set().subset_of(vstd::set_lib::set_int_range(0, n))) by {
        assert forall|x: int| s.to_set().contains(x) implies vstd::set_lib::set_int_range(
            0,
            n,
        ).contains(x) by {
            let i = choose|i: int| 0 <= i < s.len() && s[i] == x;
        }
    }
    vstd::set_lib::lemma_len_subset(s.to_set(), vstd::set_lib::set_int_range(0, n));
}

/// Where there are as many different numbers below a bound as the bound, each number below
/// it is among them.
pub proof fn lemma_all_taken(s: Seq<int>, r: int)
    requires
        s.no_duplicates(),
        forall|i: int| 0 <= i < s.len() ==> 0 <= #[trigger] s[i] < s.len(),
        0 <= r < s.len(),
    ensures
        exists|x: int| 0 <= x < s.len() && s[x] == r,
{
    if forall|x: int| 0 <= x < s.len() ==> s[x] != r {
        let t = s.map_values(
            |v: int|
                if v > r {
                    v - 1
                } else {
                    v
                },
        );
        assert forall|a: int, b: int| 0 <= a < t.len() && 0 <= b < t.len() && a != b implies t[a]
            != t[b] by {
            assert(s[a] != s[b] && s[a] != r && s[b] != r);
        }
        assert forall|a: int| 0 <= a < t.len() implies 0 <= #[trigger] t[a] < s.len() - 1 by {
            assert(s[a] != r);
        }
        lemma_bounded_len(t, s.len() - 1);
    }
}

/// A test on the items of a list.
pub trait Test<T> {
    /// The item passes.
    spec fn passes(&self, x: T) -> bool;

    /// Whether the item passes.
    fn test(&self, x: &T) -> (b: bool)
        ensures
            b == self.passes(*x),
    ;
}

/// Keeps the items of a list that pass a test, in order.
pub fn retain_items<T, F: Test<T>>(v: &mut Vec<T>, f: &F)
    ensures
        final(v)@ == old(v)@.filter(|x: T| f.passes(x)),
{
    let ghost p = |x: T| f.passes(x);
    let ghost all = v@;
    let ghost mut k: int = 0;
    let mut i: usize = 0;
    proof {
        reveal(Seq::filter);
        assert(all.take(0).filter(p) =~= Seq::empty());
    }
    assert(v@ =~= all.take(0).filter(p) + all.skip(0));
    while i < v.len()
        invariant
            p == (|x: T| f.passes(x)),
            0 <= k <= all.len(),
            i == all.take(k).filter(p).len(),
            v@ == all.take(k).filter(p) + all.skip(k),
        decreases v.len() - i,
    {
        let ghost before = all.take(k).filter(p);
        assert(v@[i as int] == all[k]);
        proof {
            lemma_filter_take(all, k, p);
        }
        if f.test(&v[i]) {
            assert(v@ =~= before.push(all[k]) + all.skip(k + 1));
            i += 1;
        } else {
            let _ = v.remove(i);
            assert(v@ =~= before + all.skip(k + 1));
        }
        proof {
            k = k + 1;
        }
    }
    assert(k == all.len());
    assert(all.take(k) =~= all);
    assert(v@ =~= all.filter(p));
}

} // verus!
