//! Text as sequences of characters: the small string operations that the rest
//! of the library is stated over.

use vstd::prelude::*;
use vstd::slice::slice_subrange;
use vstd::string::StringExecFns;

verus! {

/// The characters that Unicode gives the White_Space property.
pub open spec fn white(c: char) -> bool {
    let u = c as u32;
    ||| 0x09 <= u <= 0x0d
    ||| u == 0x20
    ||| u == 0x85
    ||| u == 0xa0
    ||| u == 0x1680
    ||| 0x2000 <= u <= 0x200a
    ||| u == 0x2028
    ||| u == 0x2029
    ||| u == 0x202f
    ||| u == 0x205f
    ||| u == 0x3000
}

/// Whether `c` is white space.
pub fn is_white(c: char) -> (r: bool)
    ensures
        r == white(c),
{
    let u: u32 = c as u32;
    (0x09 <= u && u <= 0x0d) || u == 0x20 || u == 0x85 || u == 0xa0 || u == 0x1680 || (0x2000 <= u
        && u <= 0x200a) || u == 0x2028 || u == 0x2029 || u == 0x202f || u == 0x205f || u == 0x3000
}

/// `String::from_iter` over the characters of a slice: the text made of exactly
/// these characters, in order.
#[verifier::external_body]
pub(crate) fn string_of(v: &[char]) -> (r: String)
    ensures
        r@ == v@,
{
    String::from_iter(v)
}

/// The text is ASCII.
pub open spec fn is_ascii(s: Seq<char>) -> bool {
    forall|i: int| 0 <= i < s.len() ==> (#[trigger] s[i] as u32) < 0x80
}

/// An ASCII letter in lower case; any other character as it is.
pub open spec fn ascii_lower(c: char) -> char {
    if 'A' <= c && c <= 'Z' {
        (c as u32 + 32) as char
    } else {
        c
    }
}

/// An ASCII text in lower case.
pub open spec fn ascii_lowered(s: Seq<char>) -> Seq<char> {
    s.map_values(|c: char| ascii_lower(c))
}

/// What `str::to_lowercase` makes of a text that is not ASCII: the Unicode
/// lower-case mapping.
pub uninterp spec fn unicode_lowered(s: Seq<char>) -> Seq<char>;

/// A text in lower case.
pub open spec fn lowercase(s: Seq<char>) -> Seq<char> {
    if is_ascii(s) {
        ascii_lowered(s)
    } else {
        unicode_lowered(s)
    }
}

/// `str::to_lowercase`: ASCII letters go to lower case one by one. Of other text,
/// claimed is only that the result depends on the text alone.
#[verifier::external_body]
pub(crate) fn to_lowercase(s: &str) -> (r: String)
    ensures
        is_ascii(s@) ==> r@ == ascii_lowered(s@),
        !is_ascii(s@) ==> r@ == unicode_lowered(s@),
{
    s.to_lowercase()
}

/// An ASCII text without capital letters is its own lower case.
pub proof fn lemma_lowercase_same(s: Seq<char>)
    requires
        forall|i: int| 0 <= i < s.len() ==> (#[trigger] s[i] as u32) < 0x80 && !('A' <= s[i] <= 'Z'),
    ensures
        lowercase(s) == s,
{
    assert(ascii_lowered(s) =~= s);
}

/// The characters of a text.
pub fn chars_of(s: &str) -> (r: Vec<char>)
    ensures
        r@ == s@,
{
    let mut v: Vec<char> = Vec::new();
    for c in iter: s.chars()
        invariant
            iter.seq() == s@,
            v@ == s@.take(iter.index()),
    {
        assert(s@.take(iter.index() + 1) =~= s@.take(iter.index()).push(c));
        v.push(c);
    }
    assert(s@.take(s@.len() as int) =~= s@);
    v
}

/// Whether two texts hold the same characters.
pub fn same(a: &str, b: &str) -> (r: bool)
    ensures
        r == (a@ == b@),
{
    let x: String = a.to_owned();
    let y: String = b.to_owned();
    x == y
}

/// Whether a text is one of the listed ones.
pub fn one_of(a: &String, list: &Vec<String>) -> (r: bool)
    ensures
        r == texts(list@).contains(a@),
{
    let mut i: usize = 0;
    while i < list.len()
        invariant
            i <= list.len(),
            forall|j: int| 0 <= j < i ==> list@[j]@ != a@,
        decreases list.len() - i,
    {
        if *a == list[i] {
            assert(texts(list@)[i as int] == a@);
            return true;
        }
        i += 1;
    }
    assert(!texts(list@).contains(a@)) by {
        if texts(list@).contains(a@) {
            let j = choose|j: int| 0 <= j < texts(list@).len() && texts(list@)[j] == a@;
            assert(list@[j]@ == a@);
        }
    }
    false
}

/// The characters of each text of a list.
pub open spec fn texts(v: Seq<String>) -> Seq<Seq<char>> {
    v.map_values(|s: String| s@)
}

/// The characters of an optional text.
pub open spec fn opt_text(o: Option<String>) -> Option<Seq<char>> {
    match o {
        Some(s) => Some(s@),
        None => None,
    }
}

/// A copy of a list of texts.
pub fn clone_texts(v: &Vec<String>) -> (r: Vec<String>)
    ensures
        r@ == v@,
{
    let mut out: Vec<String> = Vec::new();
    let mut i: usize = 0;
    while i < v.len()
        invariant
            i <= v.len(),
            out@ == v@.take(i as int),
        decreases v.len() - i,
    {
        out.push(v[i].clone());
        i += 1;
        assert(v@.take(i as int) =~= v@.take(i - 1).push(v@[i - 1]));
    }
    assert(v@.take(v@.len() as int) =~= v@);
    out
}

/// A copy of an optional text.
pub fn clone_opt(o: &Option<String>) -> (r: Option<String>)
    ensures
        r == *o,
{
    match o {
        Some(s) => Some(s.clone()),
        None => None,
    }
}

// ---- trimming ----

/// `s` without its leading white space.
pub open spec fn trim_front(s: Seq<char>) -> Seq<char>
    decreases s.len(),
{
    if s.len() > 0 && white(s[0]) {
        trim_front(s.skip(1))
    } else {
        s
    }
}

/// `s` without its trailing white space.
pub open spec fn trim_back(s: Seq<char>) -> Seq<char>
    decreases s.len(),
{
    if s.len() > 0 && white(s.last()) {
        trim_back(s.drop_last())
    } else {
        s
    }
}

/// `s` without the white space at both ends.
pub open spec fn trimmed(s: Seq<char>) -> Seq<char> {
    trim_back(trim_front(s))
}

/// The bounds of the part of `v` that trimming leaves.
fn trim_bounds(v: &Vec<char>) -> (r: (usize, usize))
    ensures
        r.0 <= r.1 <= v.len(),
        v@.subrange(r.0 as int, r.1 as int) == trimmed(v@),
{
    let n: usize = v.len();
    let mut i: usize = 0;
    assert(v@.skip(0) =~= v@);
    while i < n && is_white(v[i])
        invariant
            i <= n,
            n == v.len(),
            trim_front(v@) == trim_front(v@.skip(i as int)),
        decreases n - i,
    {
        assert(v@.skip(i as int).skip(1) =~= v@.skip(i + 1));
        i += 1;
    }
    let ghost front = v@.skip(i as int);
    assert(trim_front(v@) == front);
    let mut j: usize = n;
    assert(front.take(n - i) =~= front);
    while i < j && is_white(v[j - 1])
        invariant
            i <= j <= n,
            n == v.len(),
            front == v@.skip(i as int),
            trim_back(front) == trim_back(front.take(j - i)),
        decreases j,
    {
        assert(front.take(j - i).drop_last() =~= front.take(j - i - 1));
        assert(front.take(j - i).last() == v@[j - 1]);
        j -= 1;
    }
    assert(v@.subrange(i as int, j as int) =~= front.take(j - i));
    if j > i {
        assert(front.take(j - i).last() == v@[j - 1]);
    }
    (i, j)
}

/// The text without the white space at its ends.
pub fn trim(s: &str) -> (r: String)
    ensures
        r@ == trimmed(s@),
{
    let v: Vec<char> = chars_of(s);
    let (i, j) = trim_bounds(&v);
    string_of(slice_subrange(v.as_slice(), i, j))
}

/// Whether a text holds nothing but white space.
pub fn is_blank(s: &str) -> (r: bool)
    ensures
        r == (trimmed(s@).len() == 0),
{
    let v: Vec<char> = chars_of(s);
    let (i, j) = trim_bounds(&v);
    i == j
}

// ---- searching ----

/// `n` stands in `h` at position `i`.
pub open spec fn occurs_at(h: Seq<char>, n: Seq<char>, i: int) -> bool {
    0 <= i <= h.len() - n.len() && h.subrange(i, i + n.len()) == n
}

/// `n` stands somewhere in `h`.
pub open spec fn occurs(h: Seq<char>, n: Seq<char>) -> bool {
    exists|i: int| occurs_at(h, n, i)
}

/// Whether `n` stands in `h` at position `i`.
pub fn matches_at(h: &Vec<char>, n: &Vec<char>, i: usize) -> (r: bool)
    ensures
        r == occurs_at(h@, n@, i as int),
{
    if n.len() > h.len() || i > h.len() - n.len() {
        return false;
    }
    let mut k: usize = 0;
    while k < n.len()
        invariant
            k <= n.len(),
            i + n.len() <= h.len(),
            forall|j: int| 0 <= j < k ==> h@[i + j] == n@[j],
        decreases n.len() - k,
    {
        if h[i + k] != n[k] {
            assert(h@.subrange(i as int, i + n@.len())[k as int] != n@[k as int]);
            return false;
        }
        k += 1;
    }
    assert(h@.subrange(i as int, i + n@.len()) =~= n@);
    true
}

/// The first position of `n` in `h` at or after `from`.
pub open spec fn find_from(h: Seq<char>, n: Seq<char>, from: int) -> Option<int>
    decreases h.len() - from + 1,
{
    if from < 0 || from > h.len() {
        None
    } else if occurs_at(h, n, from) {
        Some(from)
    } else {
        find_from(h, n, from + 1)
    }
}

/// The last position of `n` in `h` at or before `upto`.
pub open spec fn rfind_from(h: Seq<char>, n: Seq<char>, upto: int) -> Option<int>
    decreases upto + 1,
{
    if upto < 0 {
        None
    } else if occurs_at(h, n, upto) {
        Some(upto)
    } else {
        rfind_from(h, n, upto - 1)
    }
}

/// Finds the first position of `n` in `h` at or after `from`.
pub fn find(h: &Vec<char>, n: &Vec<char>, from: usize) -> (r: Option<usize>)
    ensures
        match r {
            Some(i) => find_from(h@, n@, from as int) == Some(i as int) && from <= i && i + n.len()
                <= h.len() && occurs_at(h@, n@, i as int),
            None => find_from(h@, n@, from as int) is None,
        },
{
    let mut i: usize = from;
    while i < h.len()
        invariant
            from <= i,
            find_from(h@, n@, from as int) == find_from(h@, n@, i as int),
        decreases h.len() - i,
    {
        if matches_at(h, n, i) {
            return Some(i);
        }
        i += 1;
    }
    if i == h.len() && matches_at(h, n, i) {
        return Some(i);
    }
    assert(find_from(h@, n@, i as int) is None) by {
        reveal_with_fuel(find_from, 2);
    }
    None
}

/// Finds the last position of `n` in `h`.
pub fn rfind(h: &Vec<char>, n: &Vec<char>) -> (r: Option<usize>)
    ensures
        match r {
            Some(i) => rfind_from(h@, n@, h@.len() as int) == Some(i as int) && i + n.len()
                <= h.len() && occurs_at(h@, n@, i as int),
            None => rfind_from(h@, n@, h@.len() as int) is None,
        },
{
    let mut i: usize = h.len();
    while i > 0
        invariant
            i <= h.len(),
            rfind_from(h@, n@, h@.len() as int) == rfind_from(h@, n@, i as int),
        decreases i,
    {
        if matches_at(h, n, i) {
            return Some(i);
        }
        i -= 1;
    }
    if matches_at(h, n, 0) {
        return Some(0);
    }
    assert(rfind_from(h@, n@, 0) is None) by {
        reveal_with_fuel(rfind_from, 2);
    }
    None
}

/// A search from the start fails exactly when the needle is nowhere.
pub proof fn lemma_find_is_occurs(h: Seq<char>, n: Seq<char>, from: int)
    requires
        0 <= from,
        forall|j: int| 0 <= j < from ==> !occurs_at(h, n, j),
    ensures
        find_from(h, n, from) is Some <==> occurs(h, n),
    decreases h.len() - from + 1,
{
    if from > h.len() {
        assert forall|j: int| !occurs_at(h, n, j) by {}
    } else if occurs_at(h, n, from) {
    } else {
        lemma_find_is_occurs(h, n, from + 1);
    }
}

/// Whether `n` stands somewhere in `h`.
pub fn contains(h: &str, n: &str) -> (r: bool)
    ensures
        r == occurs(h@, n@),
{
    let hv: Vec<char> = chars_of(h);
    let nv: Vec<char> = chars_of(n);
    proof {
        lemma_find_is_occurs(h@, n@, 0);
    }
    find(&hv, &nv, 0).is_some()
}

/// Whether `s` begins with `p`.
pub fn starts_with(s: &str, p: &str) -> (r: bool)
    ensures
        r == p@.is_prefix_of(s@),
{
    let sv: Vec<char> = chars_of(s);
    let pv: Vec<char> = chars_of(p);
    matches_at(&sv, &pv, 0)
}

// ---- cutting ----

/// The first `n` characters of a text (all of it where it is shorter).
pub open spec fn clipped(s: Seq<char>, n: int) -> Seq<char> {
    if s.len() <= n {
        s
    } else {
        s.take(n)
    }
}

/// The text itself where it has at most `n` characters, else its first `n`
/// characters and `mark`.
pub open spec fn shortened(s: Seq<char>, n: int, mark: Seq<char>) -> Seq<char> {
    if s.len() <= n {
        s
    } else {
        s.take(n) + mark
    }
}

/// Cuts a text to at most `n` characters, with `mark` behind a cut one.
pub fn shorten(s: &str, n: usize, mark: &str) -> (r: String)
    ensures
        r@ == shortened(s@, n as int, mark@),
{
    let v: Vec<char> = chars_of(s);
    if v.len() <= n {
        s.to_owned()
    } else {
        let mut out: String = string_of(slice_subrange(v.as_slice(), 0, n));
        out.append(mark);
        out
    }
}

// ---- order ----

/// `a` stands before `b` in the order of their characters.
pub open spec fn less(a: Seq<char>, b: Seq<char>) -> bool
    decreases a.len(),
{
    if b.len() == 0 {
        false
    } else if a.len() == 0 {
        true
    } else if a[0] != b[0] {
        a[0] < b[0]
    } else {
        less(a.skip(1), b.skip(1))
    }
}

/// Whether `a` stands before `b`.
pub fn is_less(a: &str, b: &str) -> (r: bool)
    ensures
        r == less(a@, b@),
{
    let x: Vec<char> = chars_of(a);
    let y: Vec<char> = chars_of(b);
    let mut i: usize = 0;
    assert(x@.skip(0) =~= x@);
    assert(y@.skip(0) =~= y@);
    while i < x.len() && i < y.len()
        invariant
            x@ == a@,
            y@ == b@,
            i <= x.len(),
            i <= y.len(),
            less(a@, b@) == less(x@.skip(i as int), y@.skip(i as int)),
        decreases x.len() - i,
    {
        if x[i] != y[i] {
            return x[i] < y[i];
        }
        assert(x@.skip(i as int).skip(1) =~= x@.skip(i + 1));
        assert(y@.skip(i as int).skip(1) =~= y@.skip(i + 1));
        i += 1;
    }
    i < y.len()
}

/// No text stands before itself, and of two different texts exactly one stands before
/// the other.
pub proof fn lemma_less_total(a: Seq<char>, b: Seq<char>)
    ensures
        !less(a, a),
        a != b ==> less(a, b) != less(b, a),
    decreases a.len(),
{
    if a.len() > 0 {
        if b.len() > 0 && a[0] == b[0] {
            lemma_less_total(a.skip(1), b.skip(1));
            if a.skip(1) == b.skip(1) {
                assert(a =~= seq![a[0]] + a.skip(1));
                assert(b =~= seq![b[0]] + b.skip(1));
            }
        } else {
            lemma_less_total(a.skip(1), a.skip(1));
        }
    } else if b.len() == 0 {
        assert(a =~= b);
    }
}

/// The order is transitive.
pub proof fn lemma_less_trans(a: Seq<char>, b: Seq<char>, c: Seq<char>)
    requires
        less(a, b),
        less(b, c),
    ensures
        less(a, c),
    decreases a.len(),
{
    if a.len() > 0 && b.len() > 0 && c.len() > 0 && a[0] == b[0] && b[0] == c[0] {
        lemma_less_trans(a.skip(1), b.skip(1), c.skip(1));
    }
}

// ---- joining ----

/// The texts one after the other, with `sep` between two.
pub open spec fn joined(parts: Seq<Seq<char>>, sep: Seq<char>) -> Seq<char>
    decreases parts.len(),
{
    if parts.len() == 0 {
        Seq::empty()
    } else if parts.len() == 1 {
        parts[0]
    } else {
        joined(parts.drop_last(), sep) + sep + parts.last()
    }
}

/// Joins texts with `sep` between two.
pub fn join(parts: &Vec<String>, sep: &str) -> (r: String)
    ensures
        r@ == joined(texts(parts@), sep@),
{
    let mut out: String = String::new();
    let mut i: usize = 0;
    assert(texts(parts@).take(0) =~= Seq::empty());
    while i < parts.len()
        invariant
            i <= parts.len(),
            out@ == joined(texts(parts@).take(i as int), sep@),
        decreases parts.len() - i,
    {
        if i > 0 {
            out.append(sep);
        }
        out.append(&parts[i]);
        i += 1;
        proof {
            let t = texts(parts@).take(i as int);
            assert(t.drop_last() =~= texts(parts@).take(i - 1));
            assert(t.last() == parts@[i - 1]@);
            if i == 1 {
                assert(Seq::<char>::empty() + parts@[0]@ =~= parts@[0]@);
            }
        }
    }
    assert(texts(parts@).take(parts@.len() as int) =~= texts(parts@));
    out
}

/// The decimal digits of `n`.
pub open spec fn decimal(n: nat) -> Seq<char>
    decreases n,
{
    if n < 10 {
        seq![('0' as u32 + n) as char]
    } else {
        decimal(n / 10) + seq![('0' as u32 + n % 10) as char]
    }
}

fn digit(d: u64) -> (c: char)
    requires
        d < 10,
    ensures
        c == ('0' as u32 + d) as char,
{
    match d {
        0 => '0',
        1 => '1',
        2 => '2',
        3 => '3',
        4 => '4',
        5 => '5',
        6 => '6',
        7 => '7',
        8 => '8',
        _ => '9',
    }
}

fn push_digits(n: u64, out: &mut Vec<char>)
    ensures
        final(out)@ == old(out)@ + decimal(n as nat),
    decreases n,
{
    if n < 10 {
        out.push(digit(n));
    } else {
        push_digits(n / 10, out);
        out.push(digit(n % 10));
    }
    assert(out@ =~= old(out)@ + decimal(n as nat));
}

/// A number written in decimal.
pub fn number(n: u64) -> (r: String)
    ensures
        r@ == decimal(n as nat),
{
    let mut v: Vec<char> = Vec::new();
    push_digits(n, &mut v);
    assert(v@ =~= decimal(n as nat));
    string_of(v.as_slice())
}

// ---- lines ----

/// A line without the carriage return that came before its line feed.
pub open spec fn without_cr(s: Seq<char>) -> Seq<char> {
    if s.len() > 0 && s.last() == '\r' {
        s.drop_last()
    } else {
        s
    }
}

/// The lines of a text: cut at each line feed, with or without a carriage
/// return before it. A line feed at the very end opens no further line.
pub open spec fn lines(s: Seq<char>) -> Seq<Seq<char>>
    decreases s.len(),
{
    if s.len() == 0 {
        Seq::empty()
    } else {
        match first_break(s, 0) {
            None => seq![s],
            Some(i) => if 0 <= i < s.len() {
                seq![without_cr(s.take(i))] + lines(s.skip(i + 1))
            } else {
                Seq::empty()
            },
        }
    }
}

/// The first line feed at or after `from`.
pub open spec fn first_break(s: Seq<char>, from: int) -> Option<int>
    decreases s.len() - from,
{
    if from < 0 || from >= s.len() {
        None
    } else if s[from] == '\n' {
        Some(from)
    } else {
        first_break(s, from + 1)
    }
}

/// Cuts a text into its lines.
pub fn split_lines(s: &str) -> (r: Vec<String>)
    ensures
        texts(r@) == lines(s@),
{
    let v: Vec<char> = chars_of(s);
    let mut out: Vec<String> = Vec::new();
    let mut at: usize = 0;
    assert(v@.skip(0) =~= v@);
    assert(texts(out@) + lines(v@) =~= lines(v@));
    while at < v.len()
        invariant
            at <= v.len(),
            lines(v@) == texts(out@) + lines(v@.skip(at as int)),
        decreases v.len() - at,
    {
        let ghost rest = v@.skip(at as int);
        let ghost before = out@;
        proof {
            lemma_first_break(v@, at as int);
            lemma_first_break(rest, 0);
        }
        match find_break(&v, at) {
            Some(i) => {
                let mut end: usize = i;
                if end > at && v[end - 1] == '\r' {
                    end -= 1;
                }
                out.push(string_of(slice_subrange(v.as_slice(), at, end)));
                proof {
                    lemma_break_is_first(rest, 0, i - at);
                    assert(rest.take(i - at) =~= v@.subrange(at as int, i as int));
                    assert(v@.subrange(at as int, end as int) =~= without_cr(rest.take(i - at)));
                    assert(rest.skip(i - at + 1) =~= v@.skip(i + 1));
                    let l = without_cr(rest.take(i - at));
                    assert(texts(out@) =~= texts(before).push(l));
                    assert(texts(before) + (seq![l] + lines(v@.skip(i + 1))) =~= texts(out@)
                        + lines(v@.skip(i + 1)));
                }
                at = i + 1;
            },
            None => {
                out.push(string_of(slice_subrange(v.as_slice(), at, v.len())));
                proof {
                    if first_break(rest, 0) is Some {
                        let k = first_break(rest, 0)->0;
                        assert(v@[at + k] == '\n');
                    }
                    assert(v@.subrange(at as int, v@.len() as int) =~= rest);
                    assert(texts(out@) =~= texts(before).push(rest));
                    assert(v@.skip(v@.len() as int) =~= Seq::empty());
                    assert(texts(before) + seq![rest] =~= texts(out@) + lines(
                        Seq::<char>::empty(),
                    ));
                }
                at = v.len();
            },
        }
    }
    assert(v@.skip(at as int) =~= Seq::empty());
    assert(texts(out@) + lines(Seq::<char>::empty()) =~= texts(out@));
    out
}

/// A first line feed is one, and without one there is none.
pub proof fn lemma_first_break(s: Seq<char>, from: int)
    ensures
        match first_break(s, from) {
            Some(i) => 0 <= from <= i < s.len() && s[i] == '\n' && forall|k: int|
                from <= k < i ==> s[k] != '\n',
            None => from >= 0 ==> forall|k: int| from <= k < s.len() ==> s[k] != '\n',
        },
    decreases s.len() - from,
{
    if 0 <= from < s.len() && s[from] != '\n' {
        lemma_first_break(s, from + 1);
    }
}

/// A line feed with none before it is the first.
pub proof fn lemma_break_is_first(s: Seq<char>, from: int, i: int)
    requires
        0 <= from <= i < s.len(),
        s[i] == '\n',
        forall|k: int| from <= k < i ==> s[k] != '\n',
    ensures
        first_break(s, from) == Some(i),
    decreases i - from,
{
    if from < i {
        lemma_break_is_first(s, from + 1, i);
    }
}

/// Finds the first line feed at or after `from`.
pub fn find_break(v: &Vec<char>, from: usize) -> (r: Option<usize>)
    ensures
        match r {
            Some(i) => first_break(v@, from as int) == Some(i as int) && from <= i < v.len() && v@[i as int] == '\n',
            None => first_break(v@, from as int) is None,
        },
{
    let mut i: usize = from;
    while i < v.len()
        invariant
            from <= i,
            first_break(v@, from as int) == first_break(v@, i as int),
        decreases v.len() - i,
    {
        if v[i] == '\n' {
            return Some(i);
        }
        i += 1;
    }
    None
}

/// A text that begins and ends with something else than white space is trimmed.
pub proof fn lemma_trimmed_same(s: Seq<char>)
    requires
        s.len() > 0,
        !white(s[0]),
        !white(s.last()),
    ensures
        trimmed(s) == s,
{
}

} // verus!
