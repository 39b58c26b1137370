//! JSON values as plain data.

use vstd::prelude::*;

use crate::text;
use crate::text::texts;

verus! {

/// The value type of the JSON crate, which only passes through.
#[verifier::external_type_specification]
#[verifier::external_body]
pub struct ExValue(serde_json::Value);

/// A JSON value. A number is held by its text, as it is written in JSON. What is read
/// from a text lists the fields of an object in the order of their keys.
#[derive(Debug, PartialEq)]
pub enum Json {
    Null,
    Bool(bool),
    Number(String),
    Str(String),
    Arr(Vec<Json>),
    Obj(Vec<(String, Json)>),
}

/// What a JSON value says.
#[verifier::ext_equal]
pub enum JsonView {
    Null,
    Bool(bool),
    Number(Seq<char>),
    Str(Seq<char>),
    Arr(Seq<JsonView>),
    Obj(Seq<(Seq<char>, JsonView)>),
}

/// What a JSON value says, part by part.
pub open spec fn json_view(j: Json) -> JsonView
    decreases j,
{
    match j {
        Json::Null => JsonView::Null,
        Json::Bool(b) => JsonView::Bool(b),
        Json::Number(n) => JsonView::Number(n@),
        Json::Str(s) => JsonView::Str(s@),
        Json::Arr(items) => JsonView::Arr(
            Seq::new(
                items@.len(),
                |i: int|
                    if 0 <= i < items@.len() {
                        json_view(items@[i])
                    } else {
                        JsonView::Null
                    },
            ),
        ),
        Json::Obj(fields) => JsonView::Obj(
            Seq::new(
                fields@.len(),
                |i: int|
                    if 0 <= i < fields@.len() {
                        (fields@[i].0@, json_view(fields@[i].1))
                    } else {
                        (Seq::empty(), JsonView::Null)
                    },
            ),
        ),
    }
}

impl View for Json {
    type V = JsonView;

    open spec fn view(&self) -> JsonView {
        json_view(*self)
    }
}

/// What the items of an array say.
pub open spec fn item_views(items: Seq<Json>) -> Seq<JsonView> {
    items.map_values(|j: Json| j@)
}

/// What the fields of an object say.
pub open spec fn field_views(fields: Seq<(String, Json)>) -> Seq<(Seq<char>, JsonView)> {
    fields.map_values(|f: (String, Json)| (f.0@, f.1@))
}

/// An array says what its items say.
pub broadcast proof fn lemma_array_view(items: Vec<Json>)
    ensures
        #[trigger] Json::Arr(items)@ == JsonView::Arr(item_views(items@)),
{
    assert(Json::Arr(items)@->Arr_0 =~= item_views(items@));
}

/// An object says what its fields say.
pub broadcast proof fn lemma_object_view(fields: Vec<(String, Json)>)
    ensures
        #[trigger] Json::Obj(fields)@ == JsonView::Obj(field_views(fields@)),
{
    assert(Json::Obj(fields)@->Obj_0 =~= field_views(fields@));
}

// ---- reading and writing ----

/// The value that `serde_json::from_str` reads from a text, or nothing where it
/// reports an error.
pub uninterp spec fn json_of_text(text: Seq<char>) -> Option<JsonView>;

/// How the error reads that `serde_json::from_str` reports for a text.
pub uninterp spec fn json_error(text: Seq<char>) -> Seq<char>;

/// The text that `serde_json::to_string` writes for a value. Of two fields with one
/// key the later counts.
pub uninterp spec fn written(j: JsonView) -> Seq<char>;

/// The text that `serde_json::to_string_pretty` writes for a value.
pub uninterp spec fn written_pretty(j: JsonView) -> Seq<char>;

/// The text of a whole number as JSON writes it.
pub open spec fn whole_number(t: Seq<char>) -> bool {
    ||| exists|n: nat| n <= u64::MAX && t == #[trigger] text::decimal(n)
    ||| exists|n: nat| 0 < n <= i64::MAX && t == seq!['-'] + #[trigger] text::decimal(n)
}

/// The text of a number that is read as it is written.
pub open spec fn kept_number(t: Seq<char>) -> bool {
    whole_number(t) || json_of_text(t) == Some(JsonView::Number(t))
}

/// The keys stand in strictly rising order.
pub open spec fn sorted_keys(fields: Seq<(Seq<char>, JsonView)>) -> bool {
    forall|i: int, k: int|
        0 <= i < k < fields.len() ==> text::less(
            (#[trigger] fields[i]).0,
            (#[trigger] fields[k]).0,
        )
}

/// The value is in the form in which it is read: its numbers are whole or, by themselves,
/// read as they are written, its objects list their keys in order, and it is nested no
/// deeper than `depth`.
pub open spec fn settled(j: JsonView, depth: nat) -> bool
    decreases j,
{
    match j {
        JsonView::Number(t) => kept_number(t),
        JsonView::Arr(items) => depth > 0 && forall|i: int|
            0 <= i < items.len() ==> settled(#[trigger] items[i], (depth - 1) as nat),
        JsonView::Obj(fields) => depth > 0 && sorted_keys(fields) && forall|i: int|
            0 <= i < fields.len() ==> settled((#[trigger] fields[i]).1, (depth - 1) as nat),
        _ => true,
    }
}

/// How deep a value may be nested for the promise that it can be read back.
pub const MAX_DEPTH: usize = 100;

/// Takes a `serde_json::Value` apart, variant by variant; a `serde_json::Number` by
/// its `to_string`. Nothing is claimed of it here: `read_json` says what is read.
#[verifier::external_body]
fn take_apart(v: serde_json::Value) -> Json {
    match v {
        serde_json::Value::Null => Json::Null,
        serde_json::Value::Bool(b) => Json::Bool(b),
        serde_json::Value::Number(n) => Json::Number(n.to_string()),
        serde_json::Value::String(s) => Json::Str(s),
        serde_json::Value::Array(a) => Json::Arr(a.into_iter().map(take_apart).collect()),
        serde_json::Value::Object(m) => Json::Obj(
            m.into_iter().map(|e| (e.0, take_apart(e.1))).collect(),
        ),
    }
}

/// Puts a `serde_json::Value` together, variant by variant; a number is read from its
/// text by `serde_json::from_str`. Nothing is claimed of it here: `write_json` and
/// `write_json_pretty` say what is written.
#[verifier::external_body]
fn put_together(j: Json) -> serde_json::Value {
    match j {
        Json::Null => serde_json::Value::Null,
        Json::Bool(b) => serde_json::Value::Bool(b),
        Json::Number(n) => serde_json::from_str(&n).unwrap_or_default(),
        Json::Str(s) => serde_json::Value::String(s),
        Json::Arr(a) => serde_json::Value::Array(a.into_iter().map(put_together).collect()),
        Json::Obj(f) => serde_json::Value::Object(
            f.into_iter().map(|e| (e.0, put_together(e.1))).collect(),
        ),
    }
}

/// `serde_json::from_str` into a `Value`; an error by its `to_string`. Claimed is that
/// whether it succeeds, what the value says, and how the error reads, depends on the
/// text alone.
#[verifier::external_body]
fn read_json(text: &str) -> (r: Result<Json, String>)
    ensures
        match r {
            Ok(j) => json_of_text(text@) == Some(j@),
            Err(e) => json_of_text(text@) is None && e@ == json_error(text@),
        },
{
    match serde_json::from_str::<serde_json::Value>(text) {
        Ok(v) => Ok(take_apart(v)),
        Err(e) => Err(e.to_string()),
    }
}

/// `serde_json::to_string` of a `Value`, which does not fail. Claimed is that the text
/// depends on what the value says alone, and that reading it gives the value back
/// where it is in the form in which values are read.
#[verifier::external_body]
fn print_json(j: Json) -> (r: String)
    ensures
        r@ == written(j@),
        settled(j@, MAX_DEPTH as nat) ==> json_of_text(r@) == Some(j@),
{
    serde_json::to_string(&put_together(j)).unwrap_or_default()
}

/// `serde_json::to_string_pretty` of a `Value`, which does not fail. Claimed is the same
/// as of `serde_json::to_string`.
#[verifier::external_body]
fn print_json_pretty(j: Json) -> (r: String)
    ensures
        r@ == written_pretty(j@),
        settled(j@, MAX_DEPTH as nat) ==> json_of_text(r@) == Some(j@),
{
    serde_json::to_string_pretty(&put_together(j)).unwrap_or_default()
}

/// Reads a text as JSON.
pub fn parse_json(text: &str) -> (r: Option<Json>)
    ensures
        match r {
            Some(j) => json_of_text(text@) == Some(j@),
            None => json_of_text(text@) is None,
        },
{
    match read_json(text) {
        Ok(j) => Some(j),
        Err(_) => None,
    }
}

/// Reads a text as JSON, or says why it is none.
pub fn try_parse_json(text: &str) -> (r: Result<Json, String>)
    ensures
        match r {
            Ok(j) => json_of_text(text@) == Some(j@),
            Err(e) => json_of_text(text@) is None && e@ == json_error(text@),
        },
{
    read_json(text)
}

/// Writes a JSON value on one line.
pub fn write_json(j: Json) -> (r: String)
    ensures
        r@ == written(j@),
        settled(j@, MAX_DEPTH as nat) ==> json_of_text(r@) == Some(j@),
{
    print_json(j)
}

/// Writes a JSON value with line breaks and indentation.
pub fn write_json_pretty(j: Json) -> (r: String)
    ensures
        r@ == written_pretty(j@),
        settled(j@, MAX_DEPTH as nat) ==> json_of_text(r@) == Some(j@),
{
    print_json_pretty(j)
}

// ---- texts and lists of texts ----

/// A lower-case hexadecimal digit.
pub open spec fn hex_digit(n: int) -> char {
    if n < 10 {
        ('0' as u32 + n) as char
    } else {
        ('a' as u32 + n - 10) as char
    }
}

/// How a character stands in a JSON string.
pub open spec fn escaped_char(c: char) -> Seq<char> {
    if c == '"' || c == '\\' {
        seq!['\\', c]
    } else if c == '\u{8}' {
        seq!['\\', 'b']
    } else if c == '\t' {
        seq!['\\', 't']
    } else if c == '\n' {
        seq!['\\', 'n']
    } else if c == '\u{c}' {
        seq!['\\', 'f']
    } else if c == '\r' {
        seq!['\\', 'r']
    } else if (c as u32) < 0x20 {
        seq!['\\', 'u', '0', '0', hex_digit(c as u32 as int / 16), hex_digit(c as u32 as int % 16)]
    } else {
        seq![c]
    }
}

/// The inside of a JSON string.
pub open spec fn escaped(s: Seq<char>) -> Seq<char>
    decreases s.len(),
{
    if s.len() == 0 {
        Seq::empty()
    } else {
        escaped(s.drop_last()) + escaped_char(s.last())
    }
}

/// A text as a JSON string.
pub open spec fn quoted(s: Seq<char>) -> Seq<char> {
    seq!['"'] + escaped(s) + seq!['"']
}

/// A list of texts as a JSON array.
pub open spec fn quoted_list(v: Seq<Seq<char>>) -> Seq<char> {
    seq!['['] + text::joined(v.map_values(|s: Seq<char>| quoted(s)), seq![',']) + seq![']']
}

/// The text that `serde_json::from_str` reads as a `String`, or nothing where it
/// reports an error.
pub uninterp spec fn text_of_json(text: Seq<char>) -> Option<Seq<char>>;

/// The texts that `serde_json::from_str` reads as a `Vec<String>`, or nothing where
/// it reports an error.
pub uninterp spec fn texts_of_json(text: Seq<char>) -> Option<Seq<Seq<char>>>;

/// `serde_json::to_string` of a text, which does not fail: the text in quotes, with
/// quotes, backslashes and control characters escaped. Reading it gives the text
/// back.
#[verifier::external_body]
pub(crate) fn write_text(s: &str) -> (r: String)
    ensures
        r@ == quoted(s@),
        text_of_json(r@) == Some(s@),
{
    serde_json::to_string(s).unwrap_or_else(|_| String::from("\"\""))
}

/// `serde_json::to_string` of a list of texts, which does not fail: the texts in
/// quotes, with commas between them, in square brackets. Reading it gives the list
/// back.
#[verifier::external_body]
pub(crate) fn write_texts(v: &Vec<String>) -> (r: String)
    ensures
        r@ == quoted_list(texts(v@)),
        texts_of_json(r@) == Some(texts(v@)),
{
    serde_json::to_string(v).unwrap_or_else(|_| String::from("[]"))
}

/// `serde_json::from_str` into a `String`. Claimed is that the outcome depends on the
/// text alone.
#[verifier::external_body]
pub(crate) fn read_text(s: &str) -> (r: Option<String>)
    ensures
        text::opt_text(r) == text_of_json(s@),
{
    serde_json::from_str::<String>(s).ok()
}

/// `serde_json::from_str` into a `Vec<String>`. Claimed is that the outcome depends on
/// the text alone.
#[verifier::external_body]
pub(crate) fn read_texts(s: &str) -> (r: Option<Vec<String>>)
    ensures
        match r {
            Some(v) => texts_of_json(s@) == Some(texts(v@)),
            None => texts_of_json(s@) is None,
        },
{
    serde_json::from_str::<Vec<String>>(s).ok()
}

/// No line ending stands in the text.
pub open spec fn one_line(s: Seq<char>) -> bool {
    forall|i: int| 0 <= i < s.len() ==> #[trigger] s[i] != '\n' && s[i] != '\r'
}

proof fn lemma_escaped_one_line(s: Seq<char>)
    ensures
        one_line(escaped(s)),
    decreases s.len(),
{
    if s.len() > 0 {
        lemma_escaped_one_line(s.drop_last());
        let e = escaped_char(s.last());
        assert(one_line(e));
        assert(escaped(s) == escaped(s.drop_last()) + e);
    }
}

/// A JSON string is one line in quotes.
pub proof fn lemma_quoted(s: Seq<char>)
    ensures
        one_line(quoted(s)),
        quoted(s).len() >= 2,
        quoted(s)[0] == '"',
        quoted(s).last() == '"',
{
    lemma_escaped_one_line(s);
}

proof fn lemma_joined_one_line(v: Seq<Seq<char>>)
    requires
        forall|i: int| 0 <= i < v.len() ==> one_line(#[trigger] v[i]),
    ensures
        one_line(text::joined(v, seq![','])),
    decreases v.len(),
{
    if v.len() > 1 {
        assert(one_line(v[v.len() - 1]));
        assert forall|i: int| 0 <= i < v.drop_last().len() implies one_line(
            #[trigger] v.drop_last()[i],
        ) by {
            assert(v.drop_last()[i] == v[i]);
        }
        lemma_joined_one_line(v.drop_last());
        assert(one_line(seq![',']));
    } else if v.len() == 1 {
        assert(one_line(v[0]));
    }
}

/// A JSON array of texts is one line in square brackets.
pub proof fn lemma_quoted_list(v: Seq<Seq<char>>)
    ensures
        one_line(quoted_list(v)),
        quoted_list(v).len() >= 2,
        quoted_list(v)[0] == '[',
        quoted_list(v).last() == ']',
{
    let q = v.map_values(|s: Seq<char>| quoted(s));
    assert forall|i: int| 0 <= i < q.len() implies one_line(#[trigger] q[i]) by {
        lemma_quoted(v[i]);
    }
    lemma_joined_one_line(q);
}

// ---- looking things up ----

/// The value under `key` among the fields.
pub open spec fn lookup(fields: Seq<(Seq<char>, JsonView)>, key: Seq<char>) -> Option<JsonView>
    decreases fields.len(),
{
    if fields.len() == 0 {
        None
    } else if fields[0].0 == key {
        Some(fields[0].1)
    } else {
        lookup(fields.skip(1), key)
    }
}

/// The value under `key` of an object; nothing for any other value.
pub open spec fn field(j: JsonView, key: Seq<char>) -> Option<JsonView> {
    match j {
        JsonView::Obj(fields) => lookup(fields, key),
        _ => None,
    }
}

/// The text that a value is.
pub open spec fn text_value(j: JsonView) -> Option<Seq<char>> {
    match j {
        JsonView::Str(s) => Some(s),
        _ => None,
    }
}

/// The text under `key`.
pub open spec fn text_field(j: JsonView, key: Seq<char>) -> Option<Seq<char>> {
    match field(j, key) {
        Some(v) => text_value(v),
        None => None,
    }
}

/// The natural number under `key`.
pub open spec fn natural_field(j: JsonView, key: Seq<char>) -> Option<u64> {
    match field(j, key) {
        Some(JsonView::Number(t)) => natural(t),
        _ => None,
    }
}

/// The flag under `key`.
pub open spec fn flag_field(j: JsonView, key: Seq<char>) -> Option<bool> {
    match field(j, key) {
        Some(JsonView::Bool(b)) => Some(b),
        _ => None,
    }
}

/// The texts of an array that holds nothing else.
pub open spec fn text_list(j: JsonView) -> Option<Seq<Seq<char>>> {
    match j {
        JsonView::Arr(items) => if forall|i: int|
            0 <= i < items.len() ==> (#[trigger] items[i]) is Str {
            Some(items.map_values(|v: JsonView| v->Str_0))
        } else {
            None
        },
        _ => None,
    }
}

/// Finds the position of `key` among the fields.
pub fn find_field(fields: &Vec<(String, Json)>, key: &str) -> (r: Option<usize>)
    ensures
        match r {
            Some(i) => i < fields.len() && fields@[i as int].0@ == key@ && lookup(field_views(fields@), key@)
                == Some(fields@[i as int].1@) && forall|k: int|
                0 <= k < i ==> fields@[k].0@ != key@,
            None => lookup(field_views(fields@), key@) is None && forall|k: int|
                0 <= k < fields@.len() ==> fields@[k].0@ != key@,
        },
{
    let mut i: usize = 0;
    assert(field_views(fields@).skip(0) =~= field_views(fields@));
    while i < fields.len()
        invariant
            i <= fields.len(),
            lookup(field_views(fields@), key@) == lookup(field_views(fields@).skip(i as int), key@),
            forall|k: int| 0 <= k < i ==> fields@[k].0@ != key@,
        decreases fields.len() - i,
    {
        assert(field_views(fields@).skip(i as int).skip(1) =~= field_views(fields@).skip(i + 1));
        if text::same(&fields[i].0, key) {
            return Some(i);
        }
        i += 1;
    }
    None
}

/// Copies a list of values.
fn copy_items(items: &Vec<Json>) -> (r: Vec<Json>)
    ensures
        item_views(r@) == item_views(items@),
    decreases items,
{
    let mut out: Vec<Json> = Vec::new();
    let mut i: usize = 0;
    while i < items.len()
        invariant
            i <= items.len(),
            out.len() == i,
            forall|k: int| 0 <= k < i ==> (#[trigger] out@[k])@ == items@[k]@,
        decreases items.len() - i,
    {
        assert(decreases_to!(items => items[i as int]));
        out.push(items[i].copy());
        i += 1;
    }
    assert(item_views(out@) =~= item_views(items@));
    out
}

/// Copies a list of fields.
fn copy_fields(fields: &Vec<(String, Json)>) -> (r: Vec<(String, Json)>)
    ensures
        field_views(r@) == field_views(fields@),
    decreases fields,
{
    let mut out: Vec<(String, Json)> = Vec::new();
    let mut i: usize = 0;
    while i < fields.len()
        invariant
            i <= fields.len(),
            out.len() == i,
            forall|k: int|
                0 <= k < i ==> (#[trigger] out@[k]).0@ == fields@[k].0@ && out@[k].1@
                    == fields@[k].1@,
        decreases fields.len() - i,
    {
        assert(decreases_to!(fields => fields[i as int]));
        out.push((fields[i].0.clone(), fields[i].1.copy()));
        i += 1;
    }
    assert(field_views(out@) =~= field_views(fields@));
    out
}

/// The whole number that digits make, where it fits.
pub open spec fn number_of_digits(t: Seq<char>) -> Option<nat>
    decreases t.len(),
{
    if t.len() == 0 {
        Some(0)
    } else if '0' <= t.last() && t.last() <= '9' {
        match number_of_digits(t.drop_last()) {
            Some(n) => Some(n * 10 + (t.last() as u32 - '0' as u32) as nat),
            None => None,
        }
    } else {
        None
    }
}

/// The natural number that a text of digits makes, where it is below 2^64.
pub open spec fn natural(t: Seq<char>) -> Option<u64> {
    match number_of_digits(t) {
        Some(n) => if t.len() > 0 && n <= u64::MAX {
            Some(n as u64)
        } else {
            None
        },
        None => None,
    }
}

proof fn lemma_digits_prefix(t: Seq<char>, k: int)
    requires
        0 <= k <= t.len(),
    ensures
        number_of_digits(t) matches Some(n) ==> number_of_digits(t.take(k)) matches Some(m) && m
            <= n,
    decreases t.len() - k,
{
    if k == t.len() {
        assert(t.take(k) =~= t);
    } else {
        lemma_digits_prefix(t, k + 1);
        assert(t.take(k + 1).drop_last() =~= t.take(k));
    }
}

/// Reads a text of digits as a natural number.
pub fn read_natural(t: &str) -> (r: Option<u64>)
    ensures
        r == natural(t@),
{
    let v: Vec<char> = text::chars_of(t);
    if v.len() == 0 {
        return None;
    }
    let mut n: u64 = 0;
    let mut i: usize = 0;
    assert(v@.take(0) =~= Seq::empty());
    while i < v.len()
        invariant
            v@ == t@,
            i <= v.len(),
            number_of_digits(v@.take(i as int)) == Some(n as nat),
        decreases v.len() - i,
    {
        let c: char = v[i];
        proof {
            lemma_digits_prefix(v@, i + 1);
            assert(v@.take(i + 1).drop_last() =~= v@.take(i as int));
            assert(v@.take(i + 1).last() == c);
        }
        if !('0' <= c && c <= '9') {
            return None;
        }
        let d: u64 = (c as u32 - 48) as u64;
        if n > (u64::MAX - d) / 10 {
            return None;
        }
        n = n * 10 + d;
        i += 1;
    }
    assert(v@.take(v@.len() as int) =~= v@);
    Some(n)
}

impl Json {
    /// A copy of the value.
    pub fn copy(&self) -> (r: Json)
        ensures
            r@ == self@,
        decreases self,
    {
        broadcast use {lemma_array_view, lemma_object_view};

        match self {
            Json::Null => Json::Null,
            Json::Bool(b) => Json::Bool(*b),
            Json::Number(n) => Json::Number(n.clone()),
            Json::Str(s) => Json::Str(s.clone()),
            Json::Arr(items) => Json::Arr(copy_items(items)),
            Json::Obj(fields) => Json::Obj(copy_fields(fields)),
        }
    }

    /// The natural number under `key`.
    pub fn get_natural(&self, key: &str) -> (r: Option<u64>)
        ensures
            r == natural_field(self@, key@),
    {
        match self.get(key) {
            Some(Json::Number(t)) => read_natural(t),
            _ => None,
        }
    }

    /// The flag under `key`.
    pub fn get_flag(&self, key: &str) -> (r: Option<bool>)
        ensures
            r == flag_field(self@, key@),
    {
        match self.get(key) {
            Some(Json::Bool(b)) => Some(*b),
            _ => None,
        }
    }

    /// The value under `key` of an object.
    pub fn get(&self, key: &str) -> (r: Option<&Json>)
        ensures
            match r {
                Some(v) => field(self@, key@) == Some(v@),
                None => field(self@, key@) is None,
            },
    {
        broadcast use lemma_object_view;

        match self {
            Json::Obj(fields) => match find_field(fields, key) {
                Some(i) => Some(&fields[i].1),
                None => None,
            },
            _ => None,
        }
    }

    /// The text that the value is.
    pub fn as_str(&self) -> (r: Option<&String>)
        ensures
            match r {
                Some(s) => *self == Json::Str(*s) && text_value(self@) == Some(s@),
                None => text_value(self@) is None,
            },
    {
        match self {
            Json::Str(s) => Some(s),
            _ => None,
        }
    }

    /// A copy of the text under `key`.
    pub fn get_text(&self, key: &str) -> (r: Option<String>)
        ensures
            text::opt_text(r) == text_field(self@, key@),
    {
        match self.get(key) {
            Some(v) => match v.as_str() {
                Some(s) => Some(s.clone()),
                None => None,
            },
            None => None,
        }
    }

    /// The texts of an array that holds nothing else.
    pub fn get_texts(&self) -> (r: Option<Vec<String>>)
        ensures
            match r {
                Some(v) => text_list(self@) == Some(texts(v@)),
                None => text_list(self@) is None,
            },
    {
        broadcast use lemma_array_view;

        match self {
            Json::Arr(items) => {
                let mut out: Vec<String> = Vec::new();
                let mut i: usize = 0;
                while i < items.len()
                    invariant
                        self@ == JsonView::Arr(item_views(items@)),
                        i <= items.len(),
                        out.len() == i,
                        forall|k: int|
                            0 <= k < i ==> (#[trigger] item_views(items@)[k]) is Str,
                        forall|k: int|
                            0 <= k < i ==> (#[trigger] out@[k])@ == item_views(items@)[k]->Str_0,
                    decreases items.len() - i,
                {
                    match &items[i] {
                        Json::Str(s) => out.push(s.clone()),
                        _ => {
                            assert(!(item_views(items@)[i as int] is Str));
                            return None;
                        },
                    }
                    i += 1;
                }
                assert(texts(out@) =~= item_views(items@).map_values(|v: JsonView| v->Str_0));
                Some(out)
            },
            _ => None,
        }
    }
}

// ---- building values ----

/// An array of texts.
pub open spec fn texts_json(v: Seq<Seq<char>>) -> JsonView {
    JsonView::Arr(v.map_values(|t: Seq<char>| JsonView::Str(t)))
}

/// A field, where there is something to put into it.
pub open spec fn opt_field(key: Seq<char>, v: Option<JsonView>) -> Seq<(Seq<char>, JsonView)> {
    match v {
        Some(j) => seq![(key, j)],
        None => Seq::empty(),
    }
}

/// A text, where there is one.
pub open spec fn opt_text_json(o: Option<Seq<char>>) -> Option<JsonView> {
    match o {
        Some(t) => Some(JsonView::Str(t)),
        None => None,
    }
}

/// A list of texts as an array.
pub(crate) fn json_texts(v: &Vec<String>) -> (r: Json)
    ensures
        r@ == texts_json(texts(v@)),
{
    let mut out: Vec<Json> = Vec::new();
    let mut i: usize = 0;
    while i < v.len()
        invariant
            i <= v.len(),
            out.len() == i,
            forall|k: int| 0 <= k < i ==> (#[trigger] out@[k])@ == JsonView::Str(v@[k]@),
        decreases v.len() - i,
    {
        out.push(Json::Str(v[i].clone()));
        i += 1;
    }
    broadcast use lemma_array_view;

    assert(item_views(out@) =~= texts(v@).map_values(|t: Seq<char>| JsonView::Str(t)));
    Json::Arr(out)
}

/// Adds a field.
pub(crate) fn push_field(out: &mut Vec<(String, Json)>, key: &str, value: Json)
    ensures
        field_views(final(out)@) == field_views(old(out)@).push((key@, value@)),
{
    let ghost before = out@;
    out.push((key.to_owned(), value));
    assert(field_views(out@) =~= field_views(before).push((key@, value@)));
}

/// Adds a field, where there is something to put into it.
pub(crate) fn push_opt(out: &mut Vec<(String, Json)>, key: &str, value: Option<Json>)
    ensures
        field_views(final(out)@) == field_views(old(out)@) + opt_field(
            key@,
            match value {
                Some(j) => Some(j@),
                None => None,
            },
        ),
{
    let ghost before = field_views(out@);
    match value {
        Some(j) => {
            push_field(out, key, j);
            assert(field_views(out@) =~= before + seq![(key@, j@)]);
        },
        None => {
            assert(field_views(out@) =~= before + Seq::<(Seq<char>, JsonView)>::empty());
        },
    }
}

/// A text, where there is one.
pub(crate) fn opt_str(o: &Option<String>) -> (r: Option<Json>)
    ensures
        opt_text_json(text::opt_text(*o)) == (match r {
            Some(j) => Some(j@),
            None => None,
        }),
{
    match o {
        Some(s) => Some(Json::Str(s.clone())),
        None => None,
    }
}

} // verus!
