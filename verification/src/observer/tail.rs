//! Reading on in a growing transcript: complete lines behind a watermark, the
//! watermark across file changes, and the parts of a line that are left out.

use vstd::prelude::*;
use vstd::slice::slice_subrange;
use vstd::string::StringExecFns;
use vstd::utf8::{decode_utf8, valid_utf8};

use crate::json::{
    field_views, item_views, json_of_text, lookup, parse_json, write_json, written, Json, JsonView,
};
use crate::text;
use crate::text::texts;

verus! {

broadcast use {crate::json::lemma_array_view, crate::json::lemma_object_view};

// ---- complete lines behind a watermark ----

/// The text that `String::from_utf8_lossy` makes of bytes.
pub uninterp spec fn lossy(bytes: Seq<u8>) -> Seq<char>;

/// `String::from_utf8_lossy`: valid UTF-8 is decoded; what becomes of other bytes is
/// a function of the bytes.
#[verifier::external_body]
fn text_of_bytes(bytes: &[u8]) -> (r: String)
    ensures
        r@ == lossy(bytes@),
        valid_utf8(bytes@) ==> r@ == decode_utf8(bytes@),
{
    String::from_utf8_lossy(bytes).into_owned()
}

/// The first line feed at or after `from`.
pub open spec fn next_feed(buf: Seq<u8>, from: int) -> Option<int>
    decreases buf.len() - from,
{
    if from < 0 || from >= buf.len() {
        None
    } else if buf[from] == 0x0a {
        Some(from)
    } else {
        next_feed(buf, from + 1)
    }
}

/// A line without a carriage return at its end.
pub open spec fn bare_line(line: Seq<u8>) -> Seq<u8> {
    if line.len() > 0 && line.last() == 0x0d {
        line.drop_last()
    } else {
        line
    }
}

/// The complete lines of `buf` from `from` on, each without its line ending.
pub open spec fn complete_lines(buf: Seq<u8>, from: int) -> Seq<Seq<u8>>
    decreases buf.len() - from,
    via complete_lines_decreases
{
    match next_feed(buf, from) {
        None => Seq::empty(),
        Some(i) => seq![bare_line(buf.subrange(from, i))] + complete_lines(buf, i + 1),
    }
}

#[via_fn]
proof fn complete_lines_decreases(buf: Seq<u8>, from: int) {
    lemma_next_feed(buf, from);
}

/// The offset just behind the last complete line from `from` on.
pub open spec fn consumed(buf: Seq<u8>, from: int) -> int
    decreases buf.len() - from,
    via consumed_decreases
{
    match next_feed(buf, from) {
        None => from,
        Some(i) => consumed(buf, i + 1),
    }
}

#[via_fn]
proof fn consumed_decreases(buf: Seq<u8>, from: int) {
    lemma_next_feed(buf, from);
}

proof fn lemma_next_feed(buf: Seq<u8>, from: int)
    ensures
        match next_feed(buf, from) {
            Some(i) => 0 <= from <= i < buf.len() && buf[i] == 0x0a && forall|k: int|
                from <= k < i ==> buf[k] != 0x0a,
            None => from >= 0 ==> forall|k: int| from <= k < buf.len() ==> buf[k] != 0x0a,
        },
    decreases buf.len() - from,
{
    if 0 <= from < buf.len() && buf[from] != 0x0a {
        lemma_next_feed(buf, from + 1);
    }
}

/// The watermark only moves forward and stays inside the file. It moves to just
/// behind a line feed, and no line feed is left behind it: a partial last line
/// is not consumed.
pub proof fn watermark_advances(buf: Seq<u8>, from: int)
    requires
        0 <= from <= buf.len(),
    ensures
        from <= consumed(buf, from) <= buf.len(),
        consumed(buf, from) > from ==> buf[consumed(buf, from) - 1] == 0x0a,
        forall|k: int| consumed(buf, from) <= k < buf.len() ==> buf[k] != 0x0a,
        consumed(buf, from) == from <==> complete_lines(buf, from).len() == 0,
    decreases buf.len() - from,
{
    lemma_next_feed(buf, from);
    if let Some(i) = next_feed(buf, from) {
        watermark_advances(buf, i + 1);
    }
}

/// Reading on from the watermark after the file has grown gives exactly the lines
/// that a single reading of the grown file would have added: none is read twice
/// and none is lost.
pub proof fn reading_on_loses_nothing(buf: Seq<u8>, more: Seq<u8>, from: int)
    requires
        0 <= from <= buf.len(),
    ensures
        complete_lines(buf + more, from) == complete_lines(buf, from) + complete_lines(
            buf + more,
            consumed(buf, from),
        ),
        consumed(buf + more, from) == consumed(buf + more, consumed(buf, from)),
    decreases buf.len() - from,
{
    lemma_next_feed(buf, from);
    let all = buf + more;
    match next_feed(buf, from) {
        None => {
            assert(complete_lines(all, from) =~= complete_lines(buf, from) + complete_lines(
                all,
                consumed(buf, from),
            ));
        },
        Some(i) => {
            lemma_next_feed(all, from);
            lemma_feed_is_first(all, from, i);
            reading_on_loses_nothing(buf, more, i + 1);
            assert(all.subrange(from, i) =~= buf.subrange(from, i));
            assert(complete_lines(all, from) =~= complete_lines(buf, from) + complete_lines(
                all,
                consumed(buf, from),
            ));
        },
    }
}

proof fn lemma_feed_is_first(buf: Seq<u8>, from: int, i: int)
    requires
        0 <= from <= i < buf.len(),
        buf[i] == 0x0a,
        forall|k: int| from <= k < i ==> buf[k] != 0x0a,
    ensures
        next_feed(buf, from) == Some(i),
    decreases i - from,
{
    if from < i {
        lemma_feed_is_first(buf, from + 1, i);
    }
}

/// The complete lines of `buf` behind the watermark, and the watermark just behind
/// the last of them. A partial last line is left for the next reading. A watermark
/// at or beyond the end gives no lines and stays.
pub fn new_lines(buf: &[u8], watermark: u64) -> (r: (Vec<String>, u64))
    ensures
        watermark >= buf@.len() ==> r.0@.len() == 0 && r.1 == watermark,
        watermark < buf@.len() ==> texts(r.0@) == complete_lines(
            buf@,
            watermark as int,
        ).map_values(|l: Seq<u8>| lossy(l)) && r.1 == consumed(buf@, watermark as int),
{
    if watermark >= buf.len() as u64 {
        return (Vec::new(), watermark);
    }
    let start: usize = watermark as usize;
    let mut out: Vec<String> = Vec::new();
    let mut line_start: usize = start;
    let mut i: usize = start;
    let ghost decode = |l: Seq<u8>| lossy(l);
    let ghost all = complete_lines(buf@, start as int).map_values(decode);
    assert(all =~= texts(out@) + complete_lines(buf@, line_start as int).map_values(decode));
    while i < buf.len()
        invariant
            decode == (|l: Seq<u8>| lossy(l)),
            start <= line_start <= i <= buf.len(),
            all == texts(out@) + complete_lines(buf@, line_start as int).map_values(decode),
            consumed(buf@, start as int) == consumed(buf@, line_start as int),
            forall|k: int| line_start <= k < i ==> buf@[k] != 0x0a,
        decreases buf.len() - i,
    {
        if buf[i] == 0x0a {
            proof {
                lemma_feed_is_first(buf@, line_start as int, i as int);
            }
            let mut end: usize = i;
            if end > line_start && buf[end - 1] == 0x0d {
                end -= 1;
            }
            let line: &[u8] = slice_subrange(buf, line_start, end);
            assert(line@ =~= bare_line(buf@.subrange(line_start as int, i as int)));
            let ghost before = out@;
            out.push(text_of_bytes(line));
            assert(texts(out@) =~= texts(before).push(lossy(line@)));
            assert(all =~= texts(out@) + complete_lines(buf@, i + 1).map_values(decode)) by {
                let rest = complete_lines(buf@, i + 1);
                assert((seq![line@] + rest).map_values(decode) =~= seq![lossy(line@)]
                    + rest.map_values(decode));
            }
            line_start = i + 1;
        }
        i += 1;
    }
    proof {
        lemma_next_feed(buf@, line_start as int);
        assert(complete_lines(buf@, line_start as int) =~= Seq::empty());
        assert(all =~= texts(out@));
    }
    (out, line_start as u64)
}

/// The watermark for a transcript that may have been replaced or cut: the start of
/// a new file, the end of a file that shrank, else where it was.
pub fn reconcile_watermark(
    prev_stem: &str,
    prev_watermark: u64,
    file_len: u64,
    current_stem: &str,
) -> (r: u64)
    ensures
        prev_stem@ != current_stem@ ==> r == 0,
        prev_stem@ == current_stem@ ==> r == (if file_len < prev_watermark {
            file_len
        } else {
            prev_watermark
        }),
        r <= file_len,
{
    if !text::same(prev_stem, current_stem) {
        0
    } else if file_len < prev_watermark {
        file_len
    } else {
        prev_watermark
    }
}

/// What the observer's own hints begin with. A line that holds it is never observed.
pub const INJECTED_MARKER: &'static str = "[Knowledge]";

/// Whether a line holds the sentinel. An empty sentinel stands in no line.
pub fn is_injected(line: &str, sentinel: &str) -> (r: bool)
    ensures
        r == (sentinel@.len() > 0 && text::occurs(line@, sentinel@)),
{
    if sentinel.is_empty() {
        return false;
    }
    text::contains(line, sentinel)
}

// ---- shortening tool results ----

/// The length to which tool results are cut.
pub const MAX_TOOL_RESULT_LEN: usize = 2000;

/// A text cut to `max` characters, with a mark behind the cut.
pub open spec fn cut(s: Seq<char>, max: int) -> Seq<char> {
    text::shortened(s, max, "…[gekürzt]"@)
}

/// `fields` with the value of the first `key` changed by `f`.
pub open spec fn with_field(
    fields: Seq<(Seq<char>, JsonView)>,
    key: Seq<char>,
    f: spec_fn(JsonView) -> JsonView,
) -> Seq<(Seq<char>, JsonView)>
    decreases fields.len(),
{
    if fields.len() == 0 {
        fields
    } else if fields[0].0 == key {
        fields.update(0, (key, f(fields[0].1)))
    } else {
        seq![fields[0]] + with_field(fields.skip(1), key, f)
    }
}

/// A text value, cut.
pub open spec fn cut_value(v: JsonView, max: int) -> JsonView {
    match v {
        JsonView::Str(s) => JsonView::Str(cut(s, max)),
        _ => v,
    }
}

/// A block of a tool result with its text cut.
pub open spec fn cut_block(v: JsonView, max: int) -> JsonView {
    match v {
        JsonView::Obj(fields) => JsonView::Obj(
            with_field(fields, "text"@, |t: JsonView| cut_value(t, max)),
        ),
        _ => v,
    }
}

/// The content of a tool result, cut: a text, or the texts of its blocks.
pub open spec fn cut_content(v: JsonView, max: int) -> JsonView {
    match v {
        JsonView::Arr(items) => JsonView::Arr(items.map_values(|b: JsonView| cut_block(b, max))),
        _ => cut_value(v, max),
    }
}

/// Whether an object is a tool result.
pub open spec fn is_tool_result(fields: Seq<(Seq<char>, JsonView)>) -> bool {
    lookup(fields, "type"@) == Some(JsonView::Str("tool_result"@))
}

/// A value with the content of every tool result in it cut.
pub open spec fn stripped(v: JsonView, max: int) -> JsonView
    decreases v,
{
    match v {
        JsonView::Arr(items) => JsonView::Arr(
            Seq::new(
                items.len(),
                |i: int|
                    if 0 <= i < items.len() {
                        stripped(items[i], max)
                    } else {
                        JsonView::Null
                    },
            ),
        ),
        JsonView::Obj(fields) => {
            let inner = stripped_fields(fields, max);
            if is_tool_result(fields) {
                JsonView::Obj(with_field(inner, "content"@, |c: JsonView| cut_content(c, max)))
            } else {
                JsonView::Obj(inner)
            }
        },
        _ => v,
    }
}

/// The fields of an object with every tool result in their values cut.
pub open spec fn stripped_fields(fields: Seq<(Seq<char>, JsonView)>, max: int) -> Seq<
    (Seq<char>, JsonView),
>
    decreases fields,
{
    Seq::new(
        fields.len(),
        |i: int|
            if 0 <= i < fields.len() {
                (fields[i].0, stripped(fields[i].1, max))
            } else {
                (Seq::empty(), JsonView::Null)
            },
    )
}

/// Whether a value is a text longer than `max`.
pub open spec fn long_text(v: Option<JsonView>, max: int) -> bool {
    match v {
        Some(JsonView::Str(s)) => s.len() > max,
        _ => false,
    }
}

/// Whether a block of a tool result has a text longer than `max`.
pub open spec fn long_block(v: JsonView, max: int) -> bool {
    match v {
        JsonView::Obj(fields) => long_text(lookup(fields, "text"@), max),
        _ => false,
    }
}

/// Whether the content of a tool result holds a text to be cut.
pub open spec fn long_content(v: Option<JsonView>, max: int) -> bool {
    match v {
        Some(JsonView::Arr(items)) => exists|i: int|
            0 <= i < items.len() && long_block(#[trigger] items[i], max),
        _ => long_text(v, max),
    }
}

/// Whether some tool result in a value holds a text to be cut.
pub open spec fn needs_cut(v: JsonView, max: int) -> bool
    decreases v,
{
    match v {
        JsonView::Arr(items) => exists|i: int|
            0 <= i < items.len() && needs_cut(#[trigger] items[i], max),
        JsonView::Obj(fields) => {
            ||| is_tool_result(fields) && long_content(lookup(fields, "content"@), max)
            ||| exists|i: int| 0 <= i < fields.len() && needs_cut((#[trigger] fields[i]).1, max)
        },
        _ => false,
    }
}

/// A transcript line with its tool results cut. A line that is no JSON, or in which
/// nothing is to be cut, stays as it is.
pub open spec fn stripped_line(line: Seq<char>, max: int) -> Seq<char> {
    match json_of_text(line) {
        None => line,
        Some(v) => if needs_cut(v, max) {
            written(stripped(v, max))
        } else {
            line
        },
    }
}

/// Cuts a text value. The flag says whether it was too long.
fn cut_text(j: Json, max_len: usize) -> (r: (Json, bool))
    ensures
        r.0@ == cut_value(j@, max_len as int),
        r.1 == long_text(Some(j@), max_len as int),
{
    match j {
        Json::Str(s) => {
            let long: bool = text::chars_of(&s).len() > max_len;
            (Json::Str(text::shorten(&s, max_len, "…[gekürzt]")), long)
        },
        _ => (j, false),
    }
}

/// Cuts the text of one block.
fn cut_one_block(j: Json, max_len: usize) -> (r: (Json, bool))
    ensures
        r.0@ == cut_block(j@, max_len as int),
        r.1 == long_block(j@, max_len as int),
{
    match j {
        Json::Obj(fields) => {
            let ghost f = |t: JsonView| cut_value(t, max_len as int);
            let ghost views = field_views(fields@);
            let mut fields = fields;
            match crate::json::find_field(&fields, "text") {
                None => {
                    proof {
                        lemma_with_field_absent(views, "text"@, f);
                    }
                    (Json::Obj(fields), false)
                },
                Some(i) => {
                    let entry: (String, Json) = fields.remove(i);
                    let (key, value) = entry;
                    let (value, long) = cut_text(value, max_len);
                    fields.insert(i, (key, value));
                    proof {
                        lemma_with_field_present(views, "text"@, f, i as int);
                        assert(field_views(fields@) =~= views.update(
                            i as int,
                            ("text"@, f(views[i as int].1)),
                        ));
                    }
                    (Json::Obj(fields), long)
                },
            }
        },
        _ => (j, false),
    }
}

proof fn lemma_with_field_absent(
    fields: Seq<(Seq<char>, JsonView)>,
    key: Seq<char>,
    f: spec_fn(JsonView) -> JsonView,
)
    requires
        forall|k: int| 0 <= k < fields.len() ==> fields[k].0 != key,
    ensures
        with_field(fields, key, f) == fields,
    decreases fields.len(),
{
    if fields.len() > 0 {
        lemma_with_field_absent(fields.skip(1), key, f);
        assert(seq![fields[0]] + fields.skip(1) =~= fields);
    }
}

proof fn lemma_with_field_present(
    fields: Seq<(Seq<char>, JsonView)>,
    key: Seq<char>,
    f: spec_fn(JsonView) -> JsonView,
    i: int,
)
    requires
        0 <= i < fields.len(),
        fields[i].0 == key,
        forall|k: int| 0 <= k < i ==> fields[k].0 != key,
    ensures
        with_field(fields, key, f) == fields.update(i, (key, f(fields[i].1))),
    decreases fields.len(),
{
    if i > 0 {
        lemma_with_field_present(fields.skip(1), key, f, i - 1);
        assert(seq![fields[0]] + fields.skip(1).update(i - 1, (key, f(fields[i].1)))
            =~= fields.update(i, (key, f(fields[i].1))));
    }
}

/// Cuts the content of a tool result.
fn cut_whole_content(j: Json, max_len: usize) -> (r: (Json, bool))
    ensures
        r.0@ == cut_content(j@, max_len as int),
        r.1 == long_content(Some(j@), max_len as int),
{
    match j {
        Json::Arr(items) => {
            let ghost views = item_views(items@);
            let mut rest: Vec<Json> = items;
            let mut done: Vec<Json> = Vec::new();
            let mut long: bool = false;
            while rest.len() > 0
                invariant
                    done.len() + rest.len() == views.len(),
                    item_views(done@) == views.take(done@.len() as int).map_values(
                        |b: JsonView| cut_block(b, max_len as int),
                    ),
                    item_views(rest@) == views.skip(done@.len() as int),
                    long == exists|k: int|
                        0 <= k < done@.len() && long_block(#[trigger] views[k], max_len as int),
                decreases rest.len(),
            {
                let ghost n = done@.len() as int;
                let ghost before = done@;
                let item: Json = rest.remove(0);
                assert(item@ == views[n]) by {
                    assert(item@ == views.skip(n)[0]);
                }
                let (item, l) = cut_one_block(item, max_len);
                done.push(item);
                long = long || l;
                proof {
                    assert(item_views(done@) =~= item_views(before).push(item@));
                    assert(item_views(done@) =~= views.take(n + 1).map_values(
                        |b: JsonView| cut_block(b, max_len as int),
                    ));
                    assert(item_views(rest@) =~= views.skip(n).skip(1));
                    assert(views.skip(n).skip(1) =~= views.skip(n + 1));
                    assert(l ==> long_block(views[n], max_len as int));
                }
            }
            assert(views.take(views.len() as int) =~= views);
            (Json::Arr(done), long)
        },
        _ => cut_text(j, max_len),
    }
}

/// Cuts every tool result in a value.
fn strip_in_value(j: Json, max_len: usize) -> (r: (Json, bool))
    ensures
        r.0@ == stripped(j@, max_len as int),
        r.1 == needs_cut(j@, max_len as int),
    decreases j,
{
    match j {
        Json::Arr(items) => {
            let ghost max = max_len as int;
            let ghost views = item_views(items@);
            let mut rest: Vec<Json> = items;
            let mut done: Vec<Json> = Vec::new();
            let mut changed: bool = false;
            while rest.len() > 0
                invariant
                    max == max_len,
                    j == Json::Arr(items),
                    views == item_views(items@),
                    done.len() + rest.len() == views.len(),
                    rest@ == items@.skip(done@.len() as int),
                    forall|k: int|
                        0 <= k < done@.len() ==> (#[trigger] done@[k])@ == stripped(views[k], max),
                    changed == exists|k: int|
                        0 <= k < done@.len() && needs_cut(#[trigger] views[k], max),
                decreases rest.len(),
            {
                let ghost n = done@.len() as int;
                let item: Json = rest.remove(0);
                assert(item == items@[n]);
                assert(decreases_to!(j => j->Arr_0));
                assert(decreases_to!(items => items[n]));
                let (item, c) = strip_in_value(item, max_len);
                done.push(item);
                changed = changed || c;
                proof {
                    assert(rest@ =~= items@.skip(n + 1));
                    assert(c ==> needs_cut(views[n], max));
                }
            }
            assert(j@ == JsonView::Arr(views));
            assert(item_views(done@) =~= stripped(j@, max)->Arr_0);
            (Json::Arr(done), changed)
        },
        Json::Obj(fields) => {
            let ghost max = max_len as int;
            let ghost views = field_views(fields@);
            let tool: bool = match crate::json::find_field(&fields, "type") {
                Some(i) => match &fields[i].1 {
                    Json::Str(s) => text::same(s, "tool_result"),
                    _ => false,
                },
                None => false,
            };
            let at: Option<usize> = if tool {
                crate::json::find_field(&fields, "content")
            } else {
                None
            };
            let mut rest: Vec<(String, Json)> = fields;
            let mut done: Vec<(String, Json)> = Vec::new();
            let mut changed: bool = false;
            let ghost inner = stripped_fields(views, max);
            while rest.len() > 0
                invariant
                    max == max_len,
                    j == Json::Obj(fields),
                    views == field_views(fields@),
                    done.len() + rest.len() == views.len(),
                    rest@ == fields@.skip(done@.len() as int),
                    forall|k: int|
                        0 <= k < done@.len() ==> (#[trigger] done@[k]).0@ == views[k].0
                            && done@[k].1@ == stripped(views[k].1, max),
                    changed == exists|k: int|
                        0 <= k < done@.len() && needs_cut((#[trigger] views[k]).1, max),
                decreases rest.len(),
            {
                let ghost n = done@.len() as int;
                let entry: (String, Json) = rest.remove(0);
                assert(entry == fields@[n]);
                let (key, value) = entry;
                assert(decreases_to!(j => j->Obj_0));
                assert(decreases_to!(fields => fields[n]));
                let (value, c) = strip_in_value(value, max_len);
                done.push((key, value));
                changed = changed || c;
                proof {
                    assert(rest@ =~= fields@.skip(n + 1));
                    assert(c ==> needs_cut(views[n].1, max));
                }
            }
            let ghost f = |c: JsonView| cut_content(c, max);
            assert(field_views(done@) =~= inner);
            match at {
                None => {
                    proof {
                        if tool {
                            lemma_with_field_absent(inner, "content"@, f);
                        }
                    }
                    (Json::Obj(done), changed)
                },
                Some(i) => {
                    let entry: (String, Json) = done.remove(i);
                    let (key, value) = entry;
                    let (value, c) = cut_whole_content(value, max_len);
                    done.insert(i, (key, value));
                    proof {
                        lemma_with_field_present(inner, "content"@, f, i as int);
                        assert(field_views(done@) =~= inner.update(
                            i as int,
                            ("content"@, f(inner[i as int].1)),
                        ));
                        lemma_long_content_stripped(views[i as int].1, max);
                    }
                    (Json::Obj(done), changed || c)
                },
            }
        },
        _ => (j, false),
    }
}

/// Cutting tool results further inside does not change which texts of a content are
/// too long.
proof fn lemma_long_content_stripped(v: JsonView, max: int)
    ensures
        long_content(Some(stripped(v, max)), max) == long_content(Some(v), max),
{
    if let JsonView::Arr(items) = v {
        let inner = stripped(v, max)->Arr_0;
        assert forall|i: int| 0 <= i < items.len() implies long_block(
            #[trigger] inner[i],
            max,
        ) == long_block(items[i], max) by {
            lemma_long_block_stripped(items[i], max);
        }
        if long_content(Some(v), max) {
            let i = choose|i: int| 0 <= i < items.len() && long_block(#[trigger] items[i], max);
            assert(long_block(inner[i], max));
        }
        if long_content(Some(stripped(v, max)), max) {
            let i = choose|i: int| 0 <= i < inner.len() && long_block(#[trigger] inner[i], max);
            assert(long_block(items[i], max));
        }
    }
}

proof fn lemma_long_block_stripped(v: JsonView, max: int)
    ensures
        long_block(stripped(v, max), max) == long_block(v, max),
{
    if let JsonView::Obj(fields) = v {
        let inner = stripped_fields(fields, max);
        lemma_lookup_mapped(fields, inner, "text"@, max);
        if is_tool_result(fields) {
            reveal_strlit("text");
            reveal_strlit("content");
            assert("text"@.len() != "content"@.len());
            lemma_lookup_other(inner, "content"@, "text"@, |c: JsonView| cut_content(c, max));
        }
    }
}

proof fn lemma_lookup_mapped(
    fields: Seq<(Seq<char>, JsonView)>,
    inner: Seq<(Seq<char>, JsonView)>,
    key: Seq<char>,
    max: int,
)
    requires
        inner.len() == fields.len(),
        forall|i: int|
            0 <= i < fields.len() ==> (#[trigger] inner[i]).0 == fields[i].0 && inner[i].1
                == stripped(fields[i].1, max),
    ensures
        lookup(inner, key) == (match lookup(fields, key) {
            Some(v) => Some(stripped(v, max)),
            None => None,
        }),
    decreases fields.len(),
{
    if fields.len() > 0 {
        assert(inner[0].0 == fields[0].0);
        if fields[0].0 != key {
            lemma_lookup_mapped(fields.skip(1), inner.skip(1), key, max);
        }
    }
}

proof fn lemma_lookup_other(
    fields: Seq<(Seq<char>, JsonView)>,
    changed: Seq<char>,
    key: Seq<char>,
    f: spec_fn(JsonView) -> JsonView,
)
    requires
        changed != key,
    ensures
        lookup(with_field(fields, changed, f), key) == lookup(fields, key),
    decreases fields.len(),
{
    if fields.len() > 0 {
        let after = with_field(fields, changed, f);
        if fields[0].0 == changed {
            assert(after.skip(1) =~= fields.skip(1));
        } else {
            assert(after.skip(1) =~= with_field(fields.skip(1), changed, f));
            lemma_lookup_other(fields.skip(1), changed, key, f);
        }
    }
}

/// Cuts the tool results of one transcript line to `max_len` characters.
pub fn strip_tool_results(line: &str, max_len: usize) -> (r: String)
    ensures
        r@ == stripped_line(line@, max_len as int),
{
    match parse_json(line) {
        None => line.to_owned(),
        Some(j) => {
            let (j, changed) = strip_in_value(j, max_len);
            if !changed {
                return line.to_owned();
            }
            write_json(j)
        },
    }
}

} // verus!
