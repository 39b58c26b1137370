//! What is promised of texts, numbers, JSON values and the words that stand for types, in
//! terms of their characters.

use vstd::prelude::*;

use crate::json::{field, lookup, natural, number_of_digits, JsonView};
use crate::score::Score;
use crate::store::lookup::{holding, normalized, resolved, words};
use crate::store::model::{
    lemma_position, Edge, Frage, GraphView, KnowledgeGraph, Node, NodeType, NodeView, Quelle,
};
use crate::text::{
    clipped, decimal, joined, less, lines, lowercase, occurs, occurs_at, shortened, trim_back,
    trim_front, trimmed, white, without_cr,
};

verus! {

// ---- characters and texts ----

/// Of the ASCII characters, white space is the blank and what lies between the tab and the
/// carriage return.
pub proof fn ascii_white_space(c: char)
    requires
        (c as u32) < 0x80,
    ensures
        white(c) <==> c == ' ' || c == '\t' || c == '\n' || c == '\u{b}' || c == '\u{c}' || c
            == '\r',
{
}

proof fn lemma_front(s: Seq<char>) -> (a: int)
    ensures
        0 <= a <= s.len(),
        trim_front(s) == s.skip(a),
        forall|i: int| 0 <= i < a ==> white(#[trigger] s[i]),
        a < s.len() ==> !white(s[a]),
    decreases s.len(),
{
    if s.len() > 0 && white(s[0]) {
        let b = lemma_front(s.skip(1));
        assert(s.skip(1).skip(b) =~= s.skip(b + 1));
        assert forall|i: int| 0 <= i < b + 1 implies white(#[trigger] s[i]) by {
            if i > 0 {
                assert(s.skip(1)[i - 1] == s[i]);
            }
        }
        b + 1
    } else {
        assert(s.skip(0) =~= s);
        0
    }
}

proof fn lemma_back(s: Seq<char>) -> (b: int)
    ensures
        0 <= b <= s.len(),
        trim_back(s) == s.take(b),
        forall|i: int| b <= i < s.len() ==> white(#[trigger] s[i]),
        b > 0 ==> !white(s[b - 1]),
    decreases s.len(),
{
    if s.len() > 0 && white(s.last()) {
        let t = s.drop_last();
        let b = lemma_back(t);
        assert(t.take(b) =~= s.take(b));
        assert forall|i: int| b <= i < s.len() implies white(#[trigger] s[i]) by {
            if i < t.len() {
                assert(t[i] == s[i]);
            }
        }
        b
    } else {
        assert(s.take(s.len() as int) =~= s);
        s.len() as int
    }
}

/// Trimming takes white space away at both ends, as much as there is, and nothing else.
pub proof fn trimming_takes_white_ends(s: Seq<char>) -> (ends: (int, int))
    ensures
        0 <= ends.0 <= ends.1 <= s.len(),
        trimmed(s) == s.subrange(ends.0, ends.1),
        forall|i: int| 0 <= i < ends.0 ==> white(#[trigger] s[i]),
        forall|i: int| ends.1 <= i < s.len() ==> white(#[trigger] s[i]),
        ends.0 < ends.1 ==> !white(s[ends.0]) && !white(s[ends.1 - 1]),
        ends.0 == ends.1 ==> forall|i: int| 0 <= i < s.len() ==> white(#[trigger] s[i]),
{
    let a = lemma_front(s);
    let t = s.skip(a);
    let b = lemma_back(t);
    assert(t.take(b) =~= s.subrange(a, a + b));
    assert forall|i: int| a + b <= i < s.len() implies white(#[trigger] s[i]) by {
        assert(t[i - a] == s[i]);
    }
    if b > 0 {
        assert(t[b - 1] == s[a + b - 1]);
    }
    if b == 0 && a < s.len() {
        assert(t[0] == s[a]);
    }
    (a, a + b)
}

/// In an ASCII text lowering changes capital letters to small ones, and nothing else.
pub proof fn lowering_changes_capitals(s: Seq<char>)
    requires
        forall|i: int| 0 <= i < s.len() ==> (#[trigger] s[i] as u32) < 0x80,
    ensures
        lowercase(s).len() == s.len(),
        forall|i: int|
            0 <= i < s.len() && !('A' <= s[i] <= 'Z') ==> #[trigger] lowercase(s)[i] == s[i],
        forall|i: int|
            0 <= i < s.len() && 'A' <= s[i] <= 'Z' ==> #[trigger] lowercase(s)[i] as u32 == s[i]
                as u32 + 32,
        lowercase(lowercase(s)) == lowercase(s),
{
    let l = lowercase(s);
    assert forall|i: int| 0 <= i < l.len() implies (#[trigger] l[i] as u32) < 0x80 && !('A' <= l[i]
        <= 'Z') by {
        assert((s[i] as u32) < 0x80);
    }
    crate::text::lemma_lowercase_same(l);
}

/// A short text stays as it is; of a longer one the beginning is left, with a mark behind it
/// where one is set.
pub proof fn long_texts_are_cut(s: Seq<char>, n: int, mark: Seq<char>)
    requires
        0 <= n,
    ensures
        s.len() <= n ==> shortened(s, n, mark) == s && clipped(s, n) == s,
        s.len() > n ==> shortened(s, n, mark) == s.take(n) + mark && clipped(s, n) == s.take(n),
{
}

/// One text stands before another where it is the beginning of it, or where at the first
/// place at which they differ its character is the smaller.
pub proof fn texts_are_ordered_by_characters(a: Seq<char>, b: Seq<char>)
    ensures
        less(a, b) <==> exists|k: int|
            {
                &&& 0 <= k <= a.len() && k <= b.len()
                &&& #[trigger] a.take(k) == b.take(k)
                &&& (k == a.len() && k < b.len()) || (k < a.len() && k < b.len() && a[k] < b[k])
            },
    decreases a.len(),
{
    if a.len() > 0 && b.len() > 0 && a[0] == b[0] {
        let c = a.skip(1);
        let d = b.skip(1);
        texts_are_ordered_by_characters(c, d);
        if less(a, b) {
            let k = choose|k: int|
                {
                    &&& 0 <= k <= c.len() && k <= d.len()
                    &&& #[trigger] c.take(k) == d.take(k)
                    &&& (k == c.len() && k < d.len()) || (k < c.len() && k < d.len() && c[k]
                        < d[k])
                };
            assert(a.take(k + 1) =~= seq![a[0]] + c.take(k));
            assert(b.take(k + 1) =~= seq![b[0]] + d.take(k));
        }
        if exists|k: int|
            {
                &&& 0 <= k <= a.len() && k <= b.len()
                &&& #[trigger] a.take(k) == b.take(k)
                &&& (k == a.len() && k < b.len()) || (k < a.len() && k < b.len() && a[k] < b[k])
            } {
            let k = choose|k: int|
                {
                    &&& 0 <= k <= a.len() && k <= b.len()
                    &&& #[trigger] a.take(k) == b.take(k)
                    &&& (k == a.len() && k < b.len()) || (k < a.len() && k < b.len() && a[k]
                        < b[k])
                };
            assert(k > 0);
            assert(c.take(k - 1) =~= a.take(k).skip(1));
            assert(d.take(k - 1) =~= b.take(k).skip(1));
        }
    } else {
        if less(a, b) {
            assert(a.take(0) =~= b.take(0));
        }
        if a.len() > 0 && b.len() > 0 {
            assert forall|k: int| 0 < k <= a.len() && k <= b.len() implies #[trigger] a.take(k)
                != b.take(k) by {
                assert(a.take(k)[0] != b.take(k)[0]);
            }
        }
    }
}

/// Parts are joined with the separator between each two of them.
pub proof fn joining_puts_separators_between(
    parts: Seq<Seq<char>>,
    x: Seq<char>,
    sep: Seq<char>,
)
    ensures
        joined(Seq::empty(), sep).len() == 0,
        joined(seq![x], sep) == x,
        parts.len() > 0 ==> joined(parts.push(x), sep) == joined(parts, sep) + sep + x,
{
    if parts.len() > 0 {
        assert(parts.push(x).drop_last() =~= parts);
    }
}

/// A text is read line by line: what stands before its first line feed, a carriage return
/// at its end aside, and then the lines of the rest.
pub proof fn lines_end_at_line_feeds(a: Seq<char>, b: Seq<char>)
    requires
        forall|i: int| 0 <= i < a.len() ==> #[trigger] a[i] != '\n',
    ensures
        lines(a + seq!['\n'] + b) == seq![
            if a.len() > 0 && a.last() == '\r' {
                a.drop_last()
            } else {
                a
            },
        ] + lines(b),
        a.len() > 0 ==> lines(a) == seq![a],
{
    let s = a + seq!['\n'] + b;
    let k = a.len() as int;
    assert(s[k] == '\n');
    crate::text::lemma_break_is_first(s, 0, k);
    assert(s.take(k) =~= a);
    assert(s.skip(k + 1) =~= b);
    assert(without_cr(a) == (if a.len() > 0 && a.last() == '\r' {
        a.drop_last()
    } else {
        a
    }));
    crate::text::lemma_first_break(a, 0);
}

/// A number is written in decimal: one digit below ten, and else the digits of its tenth
/// and its last one; and what is written is read as the number.
pub proof fn numbers_are_written_in_decimal(n: nat)
    ensures
        n < 10 ==> decimal(n).len() == 1 && decimal(n)[0] as u32 == '0' as u32 + n,
        n >= 10 ==> decimal(n).drop_last() == decimal(n / 10) && decimal(n).last() as u32
            == '0' as u32 + n % 10,
        number_of_digits(decimal(n)) == Some(n),
        n <= u64::MAX ==> natural(decimal(n)) == Some(n as u64),
    decreases n,
{
    if n >= 10 {
        numbers_are_written_in_decimal(n / 10);
        assert(decimal(n).drop_last() =~= decimal(n / 10));
        assert(n / 10 * 10 + n % 10 == n);
    } else {
        assert(decimal(n).drop_last() =~= Seq::empty());
        reveal_with_fuel(number_of_digits, 2);
    }
}

// ---- words ----

/// The words of a text are what stands between white space.
pub proof fn words_stand_between_white_space(
    before: Seq<char>,
    word: Seq<char>,
    c: char,
    rest: Seq<char>,
)
    requires
        forall|i: int| 0 <= i < before.len() ==> white(#[trigger] before[i]),
        word.len() > 0,
        forall|i: int| 0 <= i < word.len() ==> !white(#[trigger] word[i]),
        white(c),
    ensures
        words(before + word + seq![c] + rest) == seq![word] + words(rest),
        words(before + word) == seq![word],
        words(before).len() == 0,
{
    let s = before + word + seq![c] + rest;
    lemma_skip_white(before, word + seq![c] + rest);
    assert(before + (word + seq![c] + rest) =~= s);
    let t = word + seq![c] + rest;
    assert(t.skip(0) =~= t);
    assert(trim_front(s) == t);
    lemma_word_len(word, seq![c] + rest);
    assert(word + (seq![c] + rest) =~= t);
    assert(t.take(word.len() as int) =~= word);
    let u = t.skip(word.len() as int);
    assert(u =~= seq![c] + rest);
    lemma_words_of_white(c, rest);
    lemma_skip_white(before, word);
    assert(trim_front(before + word) == word);
    lemma_word_len(word, Seq::empty());
    assert(word + Seq::<char>::empty() =~= word);
    assert(word.take(word.len() as int) =~= word);
    assert(word.skip(word.len() as int) =~= Seq::empty());
    assert(words(Seq::<char>::empty()).len() == 0) by {
        assert(trim_front(Seq::<char>::empty()).len() == 0);
    }
    assert(words(Seq::<char>::empty()) =~= Seq::empty());
    lemma_skip_white(before, Seq::empty());
    assert(before + Seq::<char>::empty() =~= before);
}

proof fn lemma_skip_white(before: Seq<char>, rest: Seq<char>)
    requires
        forall|i: int| 0 <= i < before.len() ==> white(#[trigger] before[i]),
        rest.len() > 0 ==> !white(rest[0]),
    ensures
        trim_front(before + rest) == rest,
    decreases before.len(),
{
    if before.len() > 0 {
        assert((before + rest)[0] == before[0]);
        assert((before + rest).skip(1) =~= before.skip(1) + rest);
        assert forall|i: int| 0 <= i < before.skip(1).len() implies white(
            #[trigger] before.skip(1)[i],
        ) by {
            assert(before.skip(1)[i] == before[i + 1]);
        }
        lemma_skip_white(before.skip(1), rest);
    } else {
        assert(before + rest =~= rest);
    }
}

proof fn lemma_word_len(word: Seq<char>, rest: Seq<char>)
    requires
        forall|i: int| 0 <= i < word.len() ==> !white(#[trigger] word[i]),
        rest.len() > 0 ==> white(rest[0]),
    ensures
        crate::store::lookup::word_len(word + rest) == word.len(),
    decreases word.len(),
{
    if word.len() > 0 {
        assert((word + rest)[0] == word[0]);
        assert((word + rest).skip(1) =~= word.skip(1) + rest);
        assert forall|i: int| 0 <= i < word.skip(1).len() implies !white(
            #[trigger] word.skip(1)[i],
        ) by {
            assert(word.skip(1)[i] == word[i + 1]);
        }
        lemma_word_len(word.skip(1), rest);
    } else {
        assert(word + rest =~= rest);
    }
}

proof fn lemma_words_of_white(c: char, rest: Seq<char>)
    requires
        white(c),
    ensures
        words(seq![c] + rest) == words(rest),
{
    assert((seq![c] + rest).skip(1) =~= rest);
    assert(trim_front(seq![c] + rest) == trim_front(rest));
}

/// Statements count as the same where their words are, whatever stands between them; and
/// in ASCII, whatever the case of their letters.
pub proof fn spacing_and_case_do_not_matter(a: Seq<char>, b: Seq<char>)
    ensures
        words(a) == words(b) ==> normalized(a) == normalized(b),
        lowercase(joined(words(a), seq![' '])) == lowercase(joined(words(b), seq![' ']))
            <==> normalized(a) == normalized(b),
{
    reveal_strlit(" ");
    assert(" "@ =~= seq![' ']);
}

// ---- naming a node ----

/// The statement of the node contains the text, whatever the case of either.
pub open spec fn contains_text(n: NodeView, t: Seq<char>) -> bool {
    exists|i: int|
        0 <= i <= lowercase(n.inhalt).len() - lowercase(t).len() && #[trigger] lowercase(
            n.inhalt,
        ).subrange(i, i + lowercase(t).len()) == lowercase(t)
}

proof fn lemma_contains(n: NodeView, t: Seq<char>)
    ensures
        contains_text(n, t) <==> occurs(lowercase(n.inhalt), lowercase(t)),
{
    let h = lowercase(n.inhalt);
    let p = lowercase(t);
    if contains_text(n, t) {
        let i = choose|i: int|
            0 <= i <= h.len() - p.len() && #[trigger] h.subrange(i, i + p.len()) == p;
        assert(occurs_at(h, p, i));
    }
    if occurs(h, p) {
        let i = choose|i: int| occurs_at(h, p, i);
        assert(h.subrange(i, i + p.len()) == p);
    }
}

/// A reference names the node with that id, else the one node whose statement contains it,
/// else none.
pub proof fn references_name_one_node(g: GraphView, r: Seq<char>)
    ensures
        (exists|i: int| 0 <= i < g.nodes.len() && (#[trigger] g.nodes[i]).id == trimmed(r))
            ==> resolved(g, r) == Ok::<Seq<char>, Seq<char>>(trimmed(r)),
        (forall|i: int| 0 <= i < g.nodes.len() ==> (#[trigger] g.nodes[i]).id != trimmed(r)) ==> {
            &&& forall|k: int|
                0 <= k < g.nodes.len() && contains_text(#[trigger] g.nodes[k], trimmed(r)) && (
                forall|j: int|
                    0 <= j < g.nodes.len() && j != k ==> !contains_text(
                        #[trigger] g.nodes[j],
                        trimmed(r),
                    )) ==> resolved(g, r) == Ok::<Seq<char>, Seq<char>>(g.nodes[k].id)
            &&& (forall|j: int|
                0 <= j < g.nodes.len() ==> !contains_text(#[trigger] g.nodes[j], trimmed(r)))
                ==> resolved(g, r) is Err
            &&& forall|k: int, l: int|
                0 <= k < l < g.nodes.len() && contains_text(#[trigger] g.nodes[k], trimmed(r))
                    && contains_text(#[trigger] g.nodes[l], trimmed(r)) ==> resolved(g, r) is Err
        },
{
    let t = trimmed(r);
    let p = |n: NodeView| occurs(lowercase(n.inhalt), lowercase(t));
    let at = crate::laws::merging::lemma_filter_picks(g.nodes, p);
    let found = holding(g, t);
    assert forall|i: int| 0 <= i < g.nodes.len() implies contains_text(#[trigger] g.nodes[i], t)
        == p(g.nodes[i]) by {
        lemma_contains(g.nodes[i], t);
    }
    if !g.has_node(t) {
        assert forall|k: int|
            0 <= k < g.nodes.len() && contains_text(#[trigger] g.nodes[k], t) && (forall|j: int|
                0 <= j < g.nodes.len() && j != k ==> !contains_text(#[trigger] g.nodes[j], t))
            implies resolved(g, r) == Ok::<Seq<char>, Seq<char>>(g.nodes[k].id) by {
            assert(p(g.nodes[k]));
            assert(at.contains(k));
            assert(forall|j: int| 0 <= j < at.len() ==> p(g.nodes[#[trigger] at[j]]));
            if at.len() >= 2 {
                assert(at[0] < at[1]);
                assert(contains_text(g.nodes[at[0]], t) && contains_text(g.nodes[at[1]], t));
            }
            assert(at.len() == 1 && at[0] == k);
        }
        assert forall|k: int, l: int|
            0 <= k < l < g.nodes.len() && contains_text(#[trigger] g.nodes[k], t) && contains_text(
                #[trigger] g.nodes[l],
                t,
            ) implies resolved(g, r) is Err by {
            assert(p(g.nodes[k]) && p(g.nodes[l]));
            assert(at.contains(k) && at.contains(l));
            let x = choose|x: int| 0 <= x < at.len() && at[x] == k;
            let y = choose|y: int| 0 <= y < at.len() && at[y] == l;
            assert(x != y);
            assert(found.len() >= 2);
        }
        if forall|j: int| 0 <= j < g.nodes.len() ==> !contains_text(#[trigger] g.nodes[j], t) {
            if at.len() > 0 {
                assert(p(g.nodes[at[0]]));
                assert(contains_text(g.nodes[at[0]], t));
            }
            assert(found.len() == 0);
        }
    }
}

/// A reference that names no node says so; one that could mean several lists the first
/// five of them, each with its id and the beginning of its statement.
pub proof fn failed_references_say_why(g: GraphView, r: Seq<char>) -> (at: Seq<int>)
    requires
        forall|i: int| 0 <= i < g.nodes.len() ==> (#[trigger] g.nodes[i]).id != trimmed(r),
    ensures
        forall|i: int, j: int| 0 <= i < j < at.len() ==> #[trigger] at[i] < #[trigger] at[j],
        forall|k: int| #[trigger] at.contains(k) <==> 0 <= k < g.nodes.len() && contains_text(
            g.nodes[k],
            trimmed(r),
        ),
        at.len() == 0 ==> resolved(g, r) == Err::<Seq<char>, Seq<char>>(
            "no node matches '"@ + trimmed(r)
                + "' — use an id from query_knowledge or a unique title fragment"@,
        ),
        at.len() >= 2 ==> resolved(g, r) == Err::<Seq<char>, Seq<char>>(
            "'"@ + trimmed(r) + "' is ambiguous ("@ + decimal(at.len()) + " matches): "@ + joined(
                Seq::new(
                    if at.len() <= 5 {
                        at.len()
                    } else {
                        5
                    },
                    |j: int|
                        g.nodes[at[j]].id + " ('"@ + clipped(g.nodes[at[j]].inhalt, 40) + "…')"@,
                ),
                "; "@,
            ),
        ),
{
    let t = trimmed(r);
    let p = |n: NodeView| occurs(lowercase(n.inhalt), lowercase(t));
    let at = crate::laws::merging::lemma_filter_picks(g.nodes, p);
    let found = holding(g, t);
    assert forall|k: int| #[trigger] at.contains(k) implies 0 <= k < g.nodes.len()
        && contains_text(g.nodes[k], t) by {
        let j = choose|j: int| 0 <= j < at.len() && at[j] == k;
        assert(p(g.nodes[at[j]]));
        lemma_contains(g.nodes[k], t);
    }
    assert forall|k: int| 0 <= k < g.nodes.len() && contains_text(g.nodes[k], t) implies
        #[trigger] at.contains(k) by {
        lemma_contains(g.nodes[k], t);
        assert(p(g.nodes[k]));
    }
    assert(!g.has_node(t));
    let n: nat = if at.len() <= 5 {
        at.len()
    } else {
        5
    };
    let shown = Seq::new(
        n,
        |j: int| g.nodes[at[j]].id + " ('"@ + clipped(g.nodes[at[j]].inhalt, 40) + "…')"@,
    );
    assert forall|j: int| 0 <= j < n implies #[trigger] crate::store::lookup::text_list(found)[j]
        == shown[j] by {
        assert(found[j] == g.nodes[at[j]]);
    }
    assert(crate::store::lookup::text_list(found) =~= shown);
    at
}

/// The first node with an id is found, and only such.
pub proof fn the_first_node_is_found(g: GraphView, id: Seq<char>, i: int)
    ensures
        g.position(id) == Some(i) <==> 0 <= i < g.nodes.len() && g.nodes[i].id == id && forall|
            k: int,
        |
            0 <= k < i ==> (#[trigger] g.nodes[k]).id != id,
        g.position(id) is None <==> forall|k: int|
            0 <= k < g.nodes.len() ==> (#[trigger] g.nodes[k]).id != id,
{
    lemma_position(g.nodes, id, 0);
}

// ---- JSON and numbers ----

/// The value under a key is that of the first field with the key.
pub proof fn the_first_field_counts(fields: Seq<(Seq<char>, JsonView)>, key: Seq<char>, i: int)
    requires
        0 <= i < fields.len(),
        fields[i].0 == key,
        forall|k: int| 0 <= k < i ==> (#[trigger] fields[k]).0 != key,
    ensures
        field(JsonView::Obj(fields), key) == Some(fields[i].1),
    decreases fields.len(),
{
    if i > 0 {
        let rest = fields.skip(1);
        assert(fields[0].0 != key);
        assert(rest[i - 1] == fields[i]);
        assert forall|k: int| 0 <= k < i - 1 implies (#[trigger] rest[k]).0 != key by {
            assert(rest[k] == fields[k + 1]);
        }
        the_first_field_counts(rest, key, i - 1);
        assert(lookup(fields, key) == lookup(rest, key));
    }
}

/// Where no field has the key there is no value under it; nor is there in what is no object.
pub proof fn missing_keys_have_no_value(
    fields: Seq<(Seq<char>, JsonView)>,
    key: Seq<char>,
    v: JsonView,
)
    requires
        forall|i: int| 0 <= i < fields.len() ==> (#[trigger] fields[i]).0 != key,
        !(v is Obj),
    ensures
        field(JsonView::Obj(fields), key) is None,
        field(v, key) is None,
    decreases fields.len(),
{
    if fields.len() > 0 {
        let rest = fields.skip(1);
        assert(fields[0].0 != key);
        assert forall|i: int| 0 <= i < rest.len() implies (#[trigger] rest[i]).0 != key by {
            assert(rest[i] == fields[i + 1]);
        }
        missing_keys_have_no_value(rest, key, v);
        assert(lookup(fields, key) == lookup(rest, key));
    }
}

/// Scores are compared as numbers: of two that are not negative the one with the larger
/// pattern is above, of two that are negative the one with the smaller, and any that is
/// positive is above any that is negative. What is no number is above nothing.
pub proof fn scores_are_compared_as_numbers(a: Score, b: Score)
    ensures
        a.is_nan() <==> (0x7ff0_0000_0000_0000 < a.bits && a.bits < 0x8000_0000_0000_0000) || a.bits
            > 0xfff0_0000_0000_0000,
        a.is_nan() || b.is_nan() ==> !a.above(b),
        !a.is_nan() && !b.is_nan() && a.bits < 0x8000_0000_0000_0000 && b.bits
            < 0x8000_0000_0000_0000 ==> (a.above(b) <==> a.bits > b.bits),
        !a.is_nan() && !b.is_nan() && a.bits >= 0x8000_0000_0000_0000 && b.bits
            >= 0x8000_0000_0000_0000 ==> (a.above(b) <==> a.bits < b.bits),
        !a.is_nan() && !b.is_nan() && 0 < a.bits < 0x8000_0000_0000_0000 && b.bits
            >= 0x8000_0000_0000_0000 ==> a.above(b) && !b.above(a),
{
}

// ---- types ----

/// Each type has its English code and its German one, and no other text is a code.
pub proof fn types_have_their_codes(t: NodeType, code: Seq<char>)
    ensures
        NodeType::of_code(t.code()) == Some(t),
        NodeType::of_code("decision"@) == Some(NodeType::Decision),
        NodeType::of_code("entscheidung"@) == Some(NodeType::Decision),
        NodeType::of_code("insight"@) == Some(NodeType::Insight),
        NodeType::of_code("erkenntnis"@) == Some(NodeType::Insight),
        NodeType::of_code("fact"@) == Some(NodeType::Fact),
        NodeType::of_code("fakt"@) == Some(NodeType::Fact),
        NodeType::of_code("observation"@) == Some(NodeType::Observation),
        NodeType::of_code("beobachtung"@) == Some(NodeType::Observation),
        NodeType::of_code("research"@) == Some(NodeType::Research),
        NodeType::of_code("recherche"@) == Some(NodeType::Research),
        NodeType::of_code("hypothesis"@) == Some(NodeType::Hypothesis),
        NodeType::of_code("vermutung"@) == Some(NodeType::Hypothesis),
        NodeType::of_code(code) is Some ==> code == "decision"@ || code == "entscheidung"@ || code
            == "insight"@ || code == "erkenntnis"@ || code == "fact"@ || code == "fakt"@ || code
            == "observation"@ || code == "beobachtung"@ || code == "research"@ || code
            == "recherche"@ || code == "hypothesis"@ || code == "vermutung"@,
        NodeType::Decision.code() == "decision"@,
        NodeType::Insight.code() == "insight"@,
        NodeType::Fact.code() == "fact"@,
        NodeType::Observation.code() == "observation"@,
        NodeType::Research.code() == "research"@,
        NodeType::Hypothesis.code() == "hypothesis"@,
{
    reveal_strlit("decision");
    reveal_strlit("entscheidung");
    reveal_strlit("insight");
    reveal_strlit("erkenntnis");
    reveal_strlit("fact");
    reveal_strlit("fakt");
    reveal_strlit("observation");
    reveal_strlit("beobachtung");
    reveal_strlit("research");
    reveal_strlit("recherche");
    reveal_strlit("hypothesis");
    reveal_strlit("vermutung");
    assert("decision"@[0] == 'd' && "entscheidung"@[0] == 'e' && "insight"@[0] == 'i'
        && "erkenntnis"@[0] == 'e' && "fact"@[0] == 'f' && "fakt"@[0] == 'f');
    assert("observation"@[0] == 'o' && "beobachtung"@[0] == 'b' && "research"@[0] == 'r'
        && "recherche"@[0] == 'r' && "hypothesis"@[0] == 'h' && "vermutung"@[0] == 'v');
    assert("entscheidung"@.len() == 12 && "erkenntnis"@.len() == 10 && "fact"@[2] == 'c'
        && "fakt"@[2] == 'k' && "research"@.len() == 8 && "recherche"@.len() == 9);
}

/// What a node is worth by its type: facts most, then observations, research, insights and
/// decisions alike, and hypotheses least; each less than 1 and more than 0.
pub proof fn types_have_their_worth(t: NodeType)
    ensures
        NodeType::Fact.basis().above(NodeType::Observation.basis()),
        NodeType::Observation.basis().above(NodeType::Research.basis()),
        NodeType::Research.basis().above(NodeType::Insight.basis()),
        NodeType::Insight.basis() == NodeType::Decision.basis(),
        NodeType::Insight.basis().above(NodeType::Hypothesis.basis()),
        (Score { bits: 0x3ff0_0000_0000_0000 }).above(t.basis()),
        t.basis().above(Score { bits: 0 }),
        NodeType::Fact.basis().bits == 0x3fee_6666_6666_6666,
        NodeType::Observation.basis().bits == 0x3fec_cccc_cccc_cccd,
        NodeType::Research.basis().bits == 0x3fe6_6666_6666_6666,
        NodeType::Insight.basis().bits == 0x3fe0_0000_0000_0000,
        NodeType::Hypothesis.basis().bits == 0x3fd3_3333_3333_3333,
{
}

// ---- what is said of stored values ----

/// What is said of a node says all of it.
pub proof fn nodes_are_told_by_all_they_hold(n: Node)
    ensures
        n@.id == n.id@,
        n@.typ == n.typ,
        n@.inhalt == n.inhalt@,
        n@.begruendung == n.begruendung@,
        n@.datum == n.datum@,
        n@.basis_score == n.basis_score,
        n@.score == n.score,
        n@.status == n.status@,
        n@.herkunft == n.herkunft@,
        n@.frage_id is Some <==> n.frage_id is Some,
        n.frage_id matches Some(s) ==> n@.frage_id == Some(s@),
        n@.wert is Some <==> n.wert is Some,
        n.wert matches Some(s) ==> n@.wert == Some(s@),
        n@.session_id is Some <==> n.session_id is Some,
        n.session_id matches Some(s) ==> n@.session_id == Some(s@),
        n@.quelle_ids.len() == n.quelle_ids@.len(),
        forall|i: int|
            0 <= i < n.quelle_ids@.len() ==> #[trigger] n@.quelle_ids[i] == n.quelle_ids@[i]@,
        n@.tags.len() == n.tags@.len(),
        forall|i: int| 0 <= i < n.tags@.len() ==> #[trigger] n@.tags[i] == n.tags@[i]@,
        n@.ueberholt == n.ueberholt,
        n@.erledigt == n.erledigt,
{
}

/// What is said of an edge, a question or a document says all of it.
pub proof fn the_rest_is_told_by_all_it_holds(e: Edge, f: Frage, q: Quelle)
    ensures
        e@.id == e.id@ && e@.von == e.von@ && e@.zu == e.zu@ && e@.polaritaet == e.polaritaet@
            && e@.gewicht == e.gewicht,
        f@.id == f.id@ && f@.inhalt == f.inhalt@ && f@.werte.len() == f.werte@.len(),
        forall|i: int| 0 <= i < f.werte@.len() ==> #[trigger] f@.werte[i] == f.werte@[i]@,
        q@.id == q.id@ && q@.pfad == q.pfad@ && q@.titel == q.titel@ && q@.art == q.art@,
{
}

/// What is said of a graph says all of it, in order.
pub proof fn graphs_are_told_by_all_they_hold(g: KnowledgeGraph)
    ensures
        g@.nodes.len() == g.nodes@.len(),
        forall|i: int| 0 <= i < g.nodes@.len() ==> #[trigger] g@.nodes[i] == g.nodes@[i]@,
        g@.edges.len() == g.edges@.len(),
        forall|i: int| 0 <= i < g.edges@.len() ==> #[trigger] g@.edges[i] == g.edges@[i]@,
        g@.fragen.len() == g.fragen@.len(),
        forall|i: int| 0 <= i < g.fragen@.len() ==> #[trigger] g@.fragen[i] == g.fragen@[i]@,
        g@.quellen.len() == g.quellen@.len(),
        forall|i: int| 0 <= i < g.quellen@.len() ==> #[trigger] g@.quellen[i] == g.quellen@[i]@,
{
}

/// A control character is escaped by its number, in two lower-case hexadecimal digits.
pub proof fn control_characters_are_escaped_by_number(c: char)
    requires
        (c as u32) < 0x20,
        c != '\u{8}' && c != '\t' && c != '\n' && c != '\u{c}' && c != '\r',
    ensures
        ({
            let e = crate::json::escaped_char(c);
            let low = c as u32 % 16;
            &&& e.len() == 6 && e[0] == '\\' && e[1] == 'u' && e[2] == '0' && e[3] == '0'
            &&& e[4] as u32 == '0' as u32 + c as u32 / 16
            &&& low < 10 ==> e[5] as u32 == '0' as u32 + low
            &&& low >= 10 ==> e[5] as u32 == 'a' as u32 + low - 10
        }),
{
}

} // verus!
