//! Records in JSON: objects with known keys, or arrays with the members in order.

use vstd::prelude::*;

use crate::json::{field, text_list, text_of_json, text_value, Json, JsonView};
use crate::text;
use crate::text::texts;

verus! {

broadcast use {crate::json::lemma_array_view, crate::json::lemma_object_view};

/// The texts of an optional list.
pub open spec fn opt_texts(o: Option<Vec<String>>) -> Option<Seq<Seq<char>>> {
    match o {
        Some(v) => Some(texts(v@)),
        None => None,
    }
}

/// A member of a record that is written as an object, or as an array with the
/// members in their order.
pub open spec fn member(j: JsonView, key: Seq<char>, pos: int) -> Option<JsonView> {
    match j {
        JsonView::Obj(_) => field(j, key),
        JsonView::Arr(items) => if 0 <= pos < items.len() {
            Some(items[pos])
        } else {
            None
        },
        _ => None,
    }
}

/// Whether a value is a record: an object, or an array of at most `n` members.
pub open spec fn is_record(j: JsonView, n: int) -> bool {
    match j {
        JsonView::Obj(_) => true,
        JsonView::Arr(items) => items.len() <= n,
        _ => false,
    }
}

/// A text that has to be there.
pub open spec fn needed_text(m: Option<JsonView>) -> Option<Seq<char>> {
    match m {
        Some(j) => text_value(j),
        None => None,
    }
}

/// A text with a default for a missing one.
pub open spec fn text_or(m: Option<JsonView>, default: Seq<char>) -> Option<Seq<char>> {
    match m {
        Some(j) => text_value(j),
        None => Some(default),
    }
}

/// A list of texts; a missing one is empty.
pub open spec fn texts_or_none(m: Option<JsonView>) -> Option<Seq<Seq<char>>> {
    match m {
        Some(j) => text_list(j),
        None => Some(Seq::empty()),
    }
}

/// An optional member: missing or null is no value, anything else has to be read
/// by `text_value`, `text_list` or as a flag. The outer option says whether the
/// member can be read at all.
pub open spec fn opt_text_member(m: Option<JsonView>) -> Option<Option<Seq<char>>> {
    match m {
        None => Some(None),
        Some(JsonView::Null) => Some(None),
        Some(j) => match text_value(j) {
            Some(t) => Some(Some(t)),
            None => None,
        },
    }
}

pub open spec fn opt_texts_member(m: Option<JsonView>) -> Option<Option<Seq<Seq<char>>>> {
    match m {
        None => Some(None),
        Some(JsonView::Null) => Some(None),
        Some(j) => match text_list(j) {
            Some(t) => Some(Some(t)),
            None => None,
        },
    }
}

pub open spec fn opt_flag_member(m: Option<JsonView>) -> Option<Option<bool>> {
    match m {
        None => Some(None),
        Some(JsonView::Null) => Some(None),
        Some(JsonView::Bool(b)) => Some(Some(b)),
        _ => None,
    }
}

/// An optional natural number of at most `max`.
pub open spec fn opt_natural_member(m: Option<JsonView>, max: int) -> Option<Option<u64>> {
    match m {
        None => Some(None),
        Some(JsonView::Null) => Some(None),
        Some(JsonView::Number(t)) => match crate::json::natural(t) {
            Some(n) => if n <= max {
                Some(Some(n))
            } else {
                None
            },
            None => None,
        },
        _ => None,
    }
}

pub(crate) fn get_member<'a>(j: &'a Json, key: &str, pos: usize) -> (r: Option<&'a Json>)
    ensures
        match r {
            Some(v) => member(j@, key@, pos as int) == Some(v@),
            None => member(j@, key@, pos as int) is None,
        },
{
    match j {
        Json::Obj(_) => j.get(key),
        Json::Arr(items) => if pos < items.len() {
            Some(&items[pos])
        } else {
            None
        },
        _ => None,
    }
}

pub(crate) fn fits_record(j: &Json, n: usize) -> (r: bool)
    ensures
        r == is_record(j@, n as int),
{
    match j {
        Json::Obj(_) => true,
        Json::Arr(items) => items.len() <= n,
        _ => false,
    }
}

pub(crate) fn read_text(m: Option<&Json>) -> (r: Option<String>)
    ensures
        text::opt_text(r) == (match m {
            Some(j) => text_value(j@),
            None => None,
        }),
{
    match m {
        Some(j) => match j.as_str() {
            Some(s) => Some(s.clone()),
            None => None,
        },
        None => None,
    }
}

pub(crate) fn read_text_or(m: Option<&Json>, default: &str) -> (r: Option<String>)
    ensures
        text::opt_text(r) == (match m {
            Some(j) => text_value(j@),
            None => Some(default@),
        }),
{
    match m {
        Some(_) => read_text(m),
        None => Some(default.to_owned()),
    }
}

pub(crate) fn read_texts(m: Option<&Json>) -> (r: Option<Vec<String>>)
    ensures
        opt_texts(r) == (match m {
            Some(j) => text_list(j@),
            None => Some(Seq::empty()),
        }),
{
    match m {
        Some(j) => j.get_texts(),
        None => {
            let v: Vec<String> = Vec::new();
            assert(texts(v@) =~= Seq::empty());
            Some(v)
        },
    }
}

pub(crate) fn read_opt_text(m: Option<&Json>) -> (r: Option<Option<String>>)
    ensures
        opt_text_member(deref(m)) == (match r {
            Some(o) => Some(text::opt_text(o)),
            None => None,
        }),
{
    match m {
        None => Some(None),
        Some(Json::Null) => Some(None),
        Some(j) => match read_text(Some(j)) {
            Some(s) => Some(Some(s)),
            None => None,
        },
    }
}

pub(crate) fn read_opt_texts(m: Option<&Json>) -> (r: Option<Option<Vec<String>>>)
    ensures
        opt_texts_member(deref(m)) == (match r {
            Some(o) => Some(opt_texts(o)),
            None => None,
        }),
{
    match m {
        None => Some(None),
        Some(Json::Null) => Some(None),
        Some(j) => match j.get_texts() {
            Some(v) => Some(Some(v)),
            None => None,
        },
    }
}

pub(crate) fn read_opt_flag(m: Option<&Json>) -> (r: Option<Option<bool>>)
    ensures
        r == opt_flag_member(deref(m)),
{
    match m {
        None => Some(None),
        Some(Json::Null) => Some(None),
        Some(Json::Bool(b)) => Some(Some(*b)),
        _ => None,
    }
}

/// What the value behind an optional reference says.
pub open spec fn deref(m: Option<&Json>) -> Option<JsonView> {
    match m {
        Some(j) => Some(j@),
        None => None,
    }
}

pub(crate) fn read_opt_natural(m: Option<&Json>, max: u64) -> (r: Option<Option<u64>>)
    ensures
        r == opt_natural_member(deref(m), max as int),
{
    match m {
        None => Some(None),
        Some(Json::Null) => Some(None),
        Some(Json::Number(t)) => match crate::json::read_natural(t) {
            Some(n) => if n <= max {
                Some(Some(n))
            } else {
                None
            },
            None => None,
        },
        _ => None,
    }
}

// ---- keys that are there twice ----

/// Where a reader stands inside the text of an object.
pub struct KeyScan {
    /// How many braces and brackets are open.
    pub nest: int,
    pub in_string: bool,
    pub escaped: bool,
    /// The next string at the top is a key.
    pub key_next: bool,
    /// Where the key that is being read begins.
    pub start: Option<int>,
    /// The keys so far, in quotes as they stand there.
    pub keys: Seq<Seq<char>>,
}

/// The state behind the character at `i`.
pub open spec fn key_step(st: KeyScan, s: Seq<char>, i: int) -> KeyScan {
    let c = s[i];
    if st.in_string {
        if st.escaped {
            KeyScan { escaped: false, ..st }
        } else if c == '\\' {
            KeyScan { escaped: true, ..st }
        } else if c == '"' {
            match st.start {
                Some(k) => KeyScan {
                    in_string: false,
                    start: None,
                    keys: st.keys.push(s.subrange(k, i + 1)),
                    ..st
                },
                None => KeyScan { in_string: false, ..st },
            }
        } else {
            st
        }
    } else if c == '"' {
        if st.nest == 1 && st.key_next {
            KeyScan { in_string: true, key_next: false, start: Some(i), ..st }
        } else {
            KeyScan { in_string: true, ..st }
        }
    } else if c == '{' || c == '[' {
        KeyScan { nest: st.nest + 1, key_next: st.nest == 0 && c == '{', ..st }
    } else if c == '}' || c == ']' {
        KeyScan { nest: st.nest - 1, ..st }
    } else if c == ',' && st.nest == 1 {
        KeyScan { key_next: true, ..st }
    } else {
        st
    }
}

/// The state behind the first `n` characters.
pub open spec fn key_scan(s: Seq<char>, n: int) -> KeyScan
    decreases n,
{
    if n <= 0 {
        KeyScan {
            nest: 0,
            in_string: false,
            escaped: false,
            key_next: false,
            start: None,
            keys: Seq::empty(),
        }
    } else {
        key_step(key_scan(s, n - 1), s, n - 1)
    }
}

/// How many of the first `n` keys, read as JSON strings, are `key`.
pub open spec fn times(keys: Seq<Seq<char>>, key: Seq<char>, n: int) -> nat
    decreases n,
{
    if n <= 0 {
        0
    } else {
        times(keys, key, n - 1) + (if text_of_json(keys[n - 1]) == Some(key) {
            1nat
        } else {
            0nat
        })
    }
}

/// The object that a text spells out has the key more than once.
pub open spec fn repeats(s: Seq<char>, key: Seq<char>) -> bool {
    let keys = key_scan(s, s.len() as int).keys;
    times(keys, key, keys.len() as int) > 1
}

/// The object that a text spells out has one of the keys more than once.
pub open spec fn repeats_any(s: Seq<char>, keys: Seq<Seq<char>>) -> bool {
    exists|i: int| 0 <= i < keys.len() && repeats(s, #[trigger] keys[i])
}

proof fn lemma_nest(s: Seq<char>, n: int)
    requires
        0 <= n <= s.len(),
    ensures
        -n <= key_scan(s, n).nest <= n,
        key_scan(s, n).start matches Some(k) ==> 0 <= k < n && key_scan(s, n).in_string,
    decreases n,
{
    if n > 0 {
        lemma_nest(s, n - 1);
    }
}

/// The keys at the top of an object, in quotes as they stand in its text.
fn top_keys(s: &str) -> (r: Vec<String>)
    ensures
        texts(r@) == key_scan(s@, s@.len() as int).keys,
{
    let v: Vec<char> = text::chars_of(s);
    let mut nest: i128 = 0;
    let mut in_string: bool = false;
    let mut escaped: bool = false;
    let mut key_next: bool = false;
    let mut start: Option<usize> = None;
    let mut keys: Vec<String> = Vec::new();
    let mut i: usize = 0;
    assert(texts(keys@) =~= key_scan(v@, 0).keys);
    while i < v.len()
        invariant
            v@ == s@,
            i <= v.len(),
            ({
                let st = key_scan(v@, i as int);
                &&& st.nest == nest
                &&& st.in_string == in_string
                &&& st.escaped == escaped
                &&& st.key_next == key_next
                &&& st.start == (match start {
                    Some(k) => Some(k as int),
                    None => None,
                })
                &&& st.keys == texts(keys@)
            }),
        decreases v.len() - i,
    {
        proof {
            lemma_nest(v@, i as int);
        }
        let c: char = v[i];
        if in_string {
            if escaped {
                escaped = false;
            } else if c == '\\' {
                escaped = true;
            } else if c == '"' {
                in_string = false;
                if let Some(k) = start {
                    let ghost before = keys@;
                    keys.push(
                        text::string_of(vstd::slice::slice_subrange(v.as_slice(), k, i + 1)),
                    );
                    assert(texts(keys@) =~= texts(before).push(v@.subrange(k as int, i + 1)));
                    start = None;
                }
            }
        } else if c == '"' {
            in_string = true;
            if nest == 1 && key_next {
                key_next = false;
                start = Some(i);
            }
        } else if c == '{' || c == '[' {
            key_next = nest == 0 && c == '{';
            nest += 1;
        } else if c == '}' || c == ']' {
            nest -= 1;
        } else if c == ',' && nest == 1 {
            key_next = true;
        }
        i += 1;
    }
    keys
}

/// Whether the object that a text spells out has one of the keys more than once.
pub fn has_repeated(s: &str, wanted: &Vec<String>) -> (r: bool)
    ensures
        r == repeats_any(s@, texts(wanted@)),
{
    let keys: Vec<String> = top_keys(s);
    let ghost all = texts(keys@);
    let mut read: Vec<Option<String>> = Vec::new();
    let mut i: usize = 0;
    while i < keys.len()
        invariant
            all == texts(keys@),
            i <= keys.len(),
            read.len() == i,
            forall|k: int| 0 <= k < i ==> text::opt_text(#[trigger] read@[k]) == text_of_json(all[k]),
        decreases keys.len() - i,
    {
        assert(all[i as int] == keys@[i as int]@);
        read.push(crate::json::read_text(&keys[i]));
        i += 1;
    }
    let mut w: usize = 0;
    while w < wanted.len()
        invariant
            all == texts(keys@),
            all == key_scan(s@, s@.len() as int).keys,
            read.len() == keys.len(),
            forall|k: int|
                0 <= k < read@.len() ==> text::opt_text(#[trigger] read@[k]) == text_of_json(all[k]),
            w <= wanted.len(),
            forall|j: int| 0 <= j < w ==> !repeats(s@, #[trigger] texts(wanted@)[j]),
        decreases wanted.len() - w,
    {
        let ghost key = texts(wanted@)[w as int];
        assert(key == wanted@[w as int]@);
        let mut n: usize = 0;
        let mut i: usize = 0;
        while i < read.len()
            invariant
                read.len() == keys.len(),
                all.len() == keys.len(),
                w < wanted.len(),
                key == wanted@[w as int]@,
                forall|k: int|
                    0 <= k < read@.len() ==> text::opt_text(#[trigger] read@[k]) == text_of_json(
                        all[k],
                    ),
                i <= read.len(),
                n <= i,
                n == times(all, key, i as int),
            decreases read.len() - i,
        {
            assert(text::opt_text(read@[i as int]) == text_of_json(all[i as int]));
            if let Some(t) = &read[i] {
                if *t == wanted[w] {
                    n += 1;
                }
            }
            i += 1;
        }
        if n > 1 {
            assert(repeats(s@, texts(wanted@)[w as int]));
            return true;
        }
        w += 1;
    }
    false
}

} // verus!
