//! What is promised of watching a session: how its transcript is read, what the observer
//! is asked and told, and what is remembered for the next pass.

use vstd::prelude::*;

use crate::ipc::{accepted, rejected, ReplyView, RequestView};
use crate::json::{field, json_of_text, lookup, JsonView};
use crate::observer::agent::{run_args, run_result, session_marks, titled, RunEnd};
use crate::observer::daemon::{
    delta_of, elapsed, handled, hook_text, idle_state, observed, planned, run_state, start_mark,
    task_text, PlanView, StepView,
};
use crate::observer::input::{
    block_texts, document_lines, excerpt_lines, line_text, role_of, task_with_documents, turn_text,
    turns,
};
use crate::observer::tail::{
    complete_lines, consumed, cut_block, cut_content, cut_value, long_block, long_content, lossy,
    needs_cut, next_feed, stripped, stripped_fields, stripped_line, with_field,
};
use crate::project::{dir_argument, project_dir};
use crate::store::filter::{is_match, FilterView};
use crate::store::model::{GraphView, QuelleView};
use crate::store::observer_state::StateView;
use crate::text::{joined, occurs, shortened, trimmed};

verus! {

// ---- the transcript ----

proof fn lemma_feed(buf: Seq<u8>, from: int, i: int)
    requires
        0 <= from <= i < buf.len(),
        buf[i] == 0x0a,
        forall|k: int| from <= k < i ==> #[trigger] buf[k] != 0x0a,
    ensures
        next_feed(buf, from) == Some(i),
    decreases i - from,
{
    if from < i {
        assert(buf[from] != 0x0a);
        lemma_feed(buf, from + 1, i);
    }
}

proof fn lemma_no_feed(buf: Seq<u8>, from: int)
    requires
        0 <= from <= buf.len(),
        forall|k: int| from <= k < buf.len() ==> #[trigger] buf[k] != 0x0a,
    ensures
        next_feed(buf, from) is None,
    decreases buf.len() - from,
{
    if from < buf.len() {
        assert(buf[from] != 0x0a);
        lemma_no_feed(buf, from + 1);
    }
}

/// A line of the transcript goes up to a line feed, which is consumed with it; a carriage
/// return before the feed is no part of it. What no feed ends yet is left for later.
pub proof fn lines_end_at_feeds(buf: Seq<u8>, from: int, i: int)
    requires
        0 <= from <= i <= buf.len(),
        forall|k: int| from <= k < i ==> #[trigger] buf[k] != 0x0a,
        i < buf.len() ==> buf[i] == 0x0a,
    ensures
        i < buf.len() && !(from < i && buf[i - 1] == 0x0d) ==> complete_lines(buf, from) == seq![
            buf.subrange(from, i),
        ] + complete_lines(buf, i + 1),
        i < buf.len() && from < i && buf[i - 1] == 0x0d ==> complete_lines(buf, from) == seq![
            buf.subrange(from, i - 1),
        ] + complete_lines(buf, i + 1),
        i < buf.len() ==> consumed(buf, from) == consumed(buf, i + 1),
        i == buf.len() ==> complete_lines(buf, from).len() == 0 && consumed(buf, from) == from,
{
    if i < buf.len() {
        lemma_feed(buf, from, i);
        let line = buf.subrange(from, i);
        if line.len() > 0 {
            assert(line.last() == buf[i - 1]);
            assert(line.drop_last() =~= buf.subrange(from, i - 1));
        }
    } else {
        lemma_no_feed(buf, from);
    }
}

/// Another transcript is read from its beginning; the same one goes on where it was left,
/// or at its end where it has become shorter.
pub proof fn reading_goes_on_where_it_stopped(s: StateView, len: int, stem: Seq<char>)
    requires
        0 <= len,
    ensures
        s.jsonl_stem != stem ==> start_mark(s, len, stem) == 0,
        s.jsonl_stem == stem && s.watermark <= len ==> start_mark(s, len, stem) == s.watermark,
        s.jsonl_stem == stem && s.watermark > len ==> start_mark(s, len, stem) == len,
{
}

/// Of the lines of a transcript the observer sees those without its own hints, in their
/// order, with long results of tools cut.
pub proof fn own_hints_are_left_out(lines: Seq<Seq<char>>, n: int) -> (at: Seq<int>)
    requires
        0 <= n <= lines.len(),
    ensures
        at.len() == observed(lines, n).len(),
        forall|i: int, j: int| 0 <= i < j < at.len() ==> #[trigger] at[i] < #[trigger] at[j],
        forall|j: int|
            0 <= j < at.len() ==> 0 <= #[trigger] at[j] < n && observed(lines, n)[j]
                == stripped_line(lines[at[j]], 2000) && !occurs(lines[at[j]], "[Knowledge]"@),
        forall|k: int|
            0 <= k < n && !occurs(lines[k], "[Knowledge]"@) ==> #[trigger] at.contains(k),
    decreases n,
{
    if n <= 0 {
        Seq::empty()
    } else {
        let before = own_hints_are_left_out(lines, n - 1);
        if occurs(lines[n - 1], "[Knowledge]"@) {
            before
        } else {
            let at = before.push(n - 1);
            assert forall|j: int| 0 <= j < at.len() implies 0 <= #[trigger] at[j] < n && observed(
                lines,
                n,
            )[j] == stripped_line(lines[at[j]], 2000) && !occurs(
                lines[at[j]],
                "[Knowledge]"@,
            ) by {
                if j < before.len() {
                    assert(at[j] == before[j]);
                }
            }
            assert forall|k: int| 0 <= k < n && !occurs(lines[k], "[Knowledge]"@) implies
                #[trigger] at.contains(k) by {
                if k < n - 1 {
                    assert(before.contains(k));
                    let j = choose|j: int| 0 <= j < before.len() && before[j] == k;
                    assert(at[j] == k);
                } else {
                    assert(at[before.len() as int] == k);
                }
            }
            at
        }
    }
}

// ---- long results of tools ----

/// The field is the first with its key.
pub open spec fn is_first(fields: Seq<(Seq<char>, JsonView)>, key: Seq<char>, i: int) -> bool {
    &&& 0 <= i < fields.len()
    &&& fields[i].0 == key
    &&& forall|k: int| 0 <= k < i ==> (#[trigger] fields[k]).0 != key
}

proof fn lemma_with_field(
    fields: Seq<(Seq<char>, JsonView)>,
    key: Seq<char>,
    f: spec_fn(JsonView) -> JsonView,
    i: int,
)
    ensures
        is_first(fields, key, i) ==> with_field(fields, key, f) == fields.update(
            i,
            (key, f(fields[i].1)),
        ),
        (forall|k: int| 0 <= k < fields.len() ==> (#[trigger] fields[k]).0 != key) ==> with_field(
            fields,
            key,
            f,
        ) == fields,
    decreases fields.len(),
{
    if fields.len() > 0 && fields[0].0 != key {
        let rest = fields.skip(1);
        lemma_with_field(rest, key, f, i - 1);
        if is_first(fields, key, i) {
            assert(i > 0);
            assert(rest[i - 1] == fields[i]);
            assert forall|k: int| 0 <= k < i - 1 implies (#[trigger] rest[k]).0 != key by {
                assert(rest[k] == fields[k + 1]);
            }
            assert(is_first(rest, key, i - 1));
            assert(seq![fields[0]] + rest.update(i - 1, (key, f(rest[i - 1].1))) =~= fields.update(
                i,
                (key, f(fields[i].1)),
            ));
        }
        if forall|k: int| 0 <= k < fields.len() ==> (#[trigger] fields[k]).0 != key {
            assert forall|k: int| 0 <= k < rest.len() implies (#[trigger] rest[k]).0 != key by {
                assert(rest[k] == fields[k + 1]);
            }
            assert(seq![fields[0]] + rest =~= fields);
        }
    }
}

/// What stands outside the results of tools is kept: texts, numbers and the like as they
/// are, lists item by item, and objects field by field.
pub proof fn only_results_of_tools_are_cut(v: JsonView, max: int)
    ensures
        !(v is Arr) && !(v is Obj) ==> stripped(v, max) == v,
        v matches JsonView::Arr(items) ==> (stripped(v, max) matches JsonView::Arr(out)
            && out.len() == items.len() && forall|i: int|
            0 <= i < items.len() ==> #[trigger] out[i] == stripped(items[i], max)),
        v matches JsonView::Obj(fields) ==> field(v, "type"@) != Some(
            JsonView::Str("tool_result"@),
        ) ==> (stripped(v, max) matches JsonView::Obj(out) && out.len() == fields.len() && forall|
            i: int,
        |
            0 <= i < fields.len() ==> (#[trigger] out[i]).0 == fields[i].0 && out[i].1 == stripped(
                fields[i].1,
                max,
            )),
{
    if let JsonView::Obj(fields) = v {
        if field(v, "type"@) != Some(JsonView::Str("tool_result"@)) {
            let out = stripped_fields(fields, max);
            assert(stripped(v, max) == JsonView::Obj(out));
            assert forall|i: int| 0 <= i < fields.len() implies (#[trigger] out[i]).0
                == fields[i].0 && out[i].1 == stripped(fields[i].1, max) by {
                assert(out[i] == (fields[i].0, stripped(fields[i].1, max)));
            }
        }
    }
}

/// Of the result of a tool the content is cut where it is a text that is too long, and
/// else its other fields are kept.
pub proof fn long_texts_of_tools_are_cut(
    fields: Seq<(Seq<char>, JsonView)>,
    i: int,
    s: Seq<char>,
    max: int,
)
    requires
        field(JsonView::Obj(fields), "type"@) == Some(JsonView::Str("tool_result"@)),
        is_first(fields, "content"@, i),
        fields[i].1 == JsonView::Str(s),
        0 <= max,
    ensures
        stripped(JsonView::Obj(fields), max) matches JsonView::Obj(out) && {
            &&& out.len() == fields.len()
            &&& forall|k: int|
                0 <= k < fields.len() && k != i ==> (#[trigger] out[k]).0 == fields[k].0
                    && out[k].1 == stripped(fields[k].1, max)
            &&& out[i].0 == "content"@
            &&& s.len() <= max ==> out[i].1 == JsonView::Str(s)
            &&& s.len() > max ==> out[i].1 == JsonView::Str(s.take(max) + "…[gekürzt]"@)
        },
{
    let inner = stripped_fields(fields, max);
    assert(inner[i].0 == "content"@);
    assert forall|k: int| 0 <= k < i implies (#[trigger] inner[k]).0 != "content"@ by {
        assert(fields[k].0 != "content"@);
    }
    assert(is_first(inner, "content"@, i));
    lemma_with_field(
        inner,
        "content"@,
        |c: JsonView| cut_content(c, max),
        i,
    );
}

/// Of the result of a tool whose content is a list, the text of each block is cut where it
/// is too long; the block keeps its other fields, and what is no object is kept.
pub proof fn long_blocks_of_tools_are_cut(
    fields: Seq<(Seq<char>, JsonView)>,
    i: int,
    items: Seq<JsonView>,
    b: int,
    max: int,
)
    requires
        field(JsonView::Obj(fields), "type"@) == Some(JsonView::Str("tool_result"@)),
        is_first(fields, "content"@, i),
        fields[i].1 == JsonView::Arr(items),
        0 <= b < items.len(),
        0 <= max,
    ensures
        stripped(JsonView::Obj(fields), max) matches JsonView::Obj(out) && out.len()
            == fields.len() && out[i].0 == "content"@ && (out[i].1 matches JsonView::Arr(cut)
            && cut.len() == items.len() && cut[b] == cut_block(stripped(items[b], max), max)),
        forall|v: JsonView| !(v is Obj) ==> #[trigger] cut_block(v, max) == v,
{
    let inner = stripped_fields(fields, max);
    assert(inner[i].0 == "content"@);
    assert forall|k: int| 0 <= k < i implies (#[trigger] inner[k]).0 != "content"@ by {
        assert(fields[k].0 != "content"@);
    }
    assert(is_first(inner, "content"@, i));
    lemma_with_field(
        inner,
        "content"@,
        |c: JsonView| cut_content(c, max),
        i,
    );
    assert(inner[i].1 == stripped(JsonView::Arr(items), max));
}

/// The text of a block is cut where it is too long, and else the block is kept.
pub proof fn long_texts_of_blocks_are_cut(
    block: Seq<(Seq<char>, JsonView)>,
    t: int,
    s: Seq<char>,
    max: int,
)
    requires
        is_first(block, "text"@, t),
        block[t].1 == JsonView::Str(s),
        0 <= max,
    ensures
        s.len() > max ==> cut_block(JsonView::Obj(block), max) == JsonView::Obj(
            block.update(t, ("text"@, JsonView::Str(s.take(max) + "…[gekürzt]"@))),
        ),
        s.len() <= max ==> cut_block(JsonView::Obj(block), max) == JsonView::Obj(block),
{
    lemma_with_field(
        block,
        "text"@,
        |x: JsonView| cut_value(x, max),
        t,
    );
    if s.len() <= max {
        assert(block.update(t, ("text"@, JsonView::Str(s))) =~= block);
    }
}

/// A line that is no JSON is handed on as it is; and so is one in which nothing is too
/// long.
pub proof fn short_lines_are_handed_on(line: Seq<char>, max: int)
    ensures
        json_of_text(line) is None ==> stripped_line(line, max) == line,
        json_of_text(line) matches Some(v) ==> !(v is Arr) && !(v is Obj) ==> stripped_line(
            line,
            max,
        ) == line,
        stripped_line(line, max) == line || (json_of_text(line) matches Some(v) && stripped_line(
            line,
            max,
        ) == crate::json::written(stripped(v, max))),
{
}

/// Where the content of a tool's result is a text that is too long, its line is written
/// anew, with the content cut.
pub proof fn lines_with_long_results_are_cut(
    line: Seq<char>,
    fields: Seq<(Seq<char>, JsonView)>,
    s: Seq<char>,
    max: int,
)
    requires
        json_of_text(line) == Some(JsonView::Obj(fields)),
        field(JsonView::Obj(fields), "type"@) == Some(JsonView::Str("tool_result"@)),
        field(JsonView::Obj(fields), "content"@) == Some(JsonView::Str(s)),
        s.len() > max,
    ensures
        stripped_line(line, max) == crate::json::written(stripped(JsonView::Obj(fields), max)),
{
}

/// The content of a tool's result is too long: a text of its own, or that of a block.
pub open spec fn is_long(c: JsonView, max: int) -> bool {
    ||| c matches JsonView::Str(s) && s.len() > max
    ||| c matches JsonView::Arr(items) && exists|b: int|
        0 <= b < items.len() && (field(#[trigger] items[b], "text"@) matches Some(JsonView::Str(s))
            && s.len() > max)
}

/// A line is written anew where the content of a tool's result somewhere in it is too
/// long, and only there.
pub proof fn long_results_are_found_inside(
    v: JsonView,
    items: Seq<JsonView>,
    fields: Seq<(Seq<char>, JsonView)>,
    max: int,
)
    ensures
        !(v is Arr) && !(v is Obj) ==> !needs_cut(v, max),
        needs_cut(JsonView::Arr(items), max) <==> exists|i: int|
            0 <= i < items.len() && needs_cut(#[trigger] items[i], max),
        needs_cut(JsonView::Obj(fields), max) <==> (exists|i: int|
            0 <= i < fields.len() && needs_cut((#[trigger] fields[i]).1, max)) || (field(
            JsonView::Obj(fields),
            "type"@,
        ) == Some(JsonView::Str("tool_result"@)) && (field(JsonView::Obj(fields), "content"@)
            matches Some(c) && is_long(c, max))),
{
    let a = JsonView::Arr(items);
    match a {
        JsonView::Arr(inner) => {
            if exists|i: int| 0 <= i < items.len() && needs_cut(#[trigger] items[i], max) {
                let i = choose|i: int| 0 <= i < items.len() && needs_cut(#[trigger] items[i], max);
                assert(needs_cut(inner[i], max));
                assert(needs_cut(a, max));
            }
        },
        _ => {},
    }
    if let Some(c) = lookup(fields, "content"@) {
        if let JsonView::Arr(blocks) = c {
            assert forall|b: int| 0 <= b < blocks.len() implies (field(
                #[trigger] blocks[b],
                "text"@,
            ) matches Some(JsonView::Str(s)) && s.len() > max) == long_block(blocks[b], max) by {}
            if long_content(Some(c), max) {
                let b = choose|b: int|
                    0 <= b < blocks.len() && long_block(#[trigger] blocks[b], max);
                assert(field(blocks[b], "text"@) is Some);
            }
        }
    }
}

/// Where no result of a tool is too long, cutting leaves everything as it is.
pub proof fn short_results_are_left_alone(v: JsonView, max: int)
    requires
        !needs_cut(v, max),
        0 <= max,
    ensures
        stripped(v, max) == v,
    decreases v,
{
    match v {
        JsonView::Arr(items) => {
            assert forall|i: int| 0 <= i < items.len() implies stripped(#[trigger] items[i], max)
                == items[i] by {
                assert(!needs_cut(items[i], max));
                short_results_are_left_alone(items[i], max);
            }
            let out = stripped(v, max)->Arr_0;
            assert(out =~= items);
        },
        JsonView::Obj(fields) => {
            assert forall|i: int| 0 <= i < fields.len() implies stripped(
                (#[trigger] fields[i]).1,
                max,
            ) == fields[i].1 by {
                assert(!needs_cut(fields[i].1, max));
                assert(decreases_to!(fields => fields[i]));
                short_results_are_left_alone(fields[i].1, max);
            }
            let inner = stripped_fields(fields, max);
            assert(inner =~= fields) by {
                assert forall|i: int| 0 <= i < fields.len() implies #[trigger] inner[i]
                    == fields[i] by {
                    assert(stripped(fields[i].1, max) == fields[i].1);
                }
            }
            if field(v, "type"@) == Some(JsonView::Str("tool_result"@)) {
                let f = |c: JsonView| cut_content(c, max);
                if let Some(c) = lookup(fields, "content"@) {
                    lemma_content_left(c, max);
                }
                lemma_field_left(fields, "content"@, f);
            }
        },
        _ => {},
    }
}

proof fn lemma_field_left(
    fields: Seq<(Seq<char>, JsonView)>,
    key: Seq<char>,
    f: spec_fn(JsonView) -> JsonView,
)
    requires
        lookup(fields, key) matches Some(c) ==> f(c) == c,
    ensures
        with_field(fields, key, f) == fields,
    decreases fields.len(),
{
    if fields.len() > 0 {
        if fields[0].0 == key {
            assert(fields.update(0, (key, fields[0].1)) =~= fields);
        } else {
            lemma_field_left(fields.skip(1), key, f);
            assert(seq![fields[0]] + fields.skip(1) =~= fields);
        }
    }
}

proof fn lemma_content_left(c: JsonView, max: int)
    requires
        !long_content(Some(c), max),
        0 <= max,
    ensures
        cut_content(c, max) == c,
{
    if let JsonView::Arr(blocks) = c {
        assert forall|b: int| 0 <= b < blocks.len() implies cut_block(#[trigger] blocks[b], max)
            == blocks[b] by {
            assert(!long_block(blocks[b], max));
            if let JsonView::Obj(block) = blocks[b] {
                lemma_field_left(block, "text"@, |t: JsonView| cut_value(t, max));
            }
        }
        assert(blocks.map_values(|b: JsonView| cut_block(b, max)) =~= blocks);
    }
}

// ---- turns in prose ----

/// The turns are put one behind the other.
pub proof fn turns_follow_one_another(lines: Seq<Seq<char>>, line: Seq<char>)
    ensures
        turns(Seq::empty(), 0).len() == 0,
        turns(lines.push(line), lines.len() as int + 1) == turns(lines, lines.len() as int)
            + turn_text(line),
{
    lemma_turns(lines, line, lines.len() as int);
}

proof fn lemma_turns(lines: Seq<Seq<char>>, line: Seq<char>, n: int)
    requires
        0 <= n <= lines.len(),
    ensures
        turns(lines.push(line), n) == turns(lines, n),
    decreases n,
{
    if n > 0 {
        lemma_turns(lines, line, n - 1);
        assert(lines.push(line)[n - 1] == lines[n - 1]);
    }
}

/// A turn is told with who spoke and what was said; what is no JSON is told as it stands,
/// and a turn without words is left out.
pub proof fn turns_tell_who_said_what(line: Seq<char>, j: JsonView)
    ensures
        json_of_text(line) is None ==> turn_text(line) == line + "\n"@,
        json_of_text(line) == Some(j) && trimmed(line_text(j)).len() == 0 ==> turn_text(line).len()
            == 0,
        json_of_text(line) == Some(j) && trimmed(line_text(j)).len() > 0 && role_of(j) == "user"@
            ==> turn_text(line) == "User"@ + ": "@ + trimmed(line_text(j)) + "\n\n"@,
        json_of_text(line) == Some(j) && trimmed(line_text(j)).len() > 0 && role_of(j)
            == "assistant"@ ==> turn_text(line) == "Assistant"@ + ": "@ + trimmed(line_text(j))
            + "\n\n"@,
        json_of_text(line) == Some(j) && trimmed(line_text(j)).len() > 0 && role_of(j).len() == 0
            ==> turn_text(line) == "?"@ + ": "@ + trimmed(line_text(j)) + "\n\n"@,
        json_of_text(line) == Some(j) && trimmed(line_text(j)).len() > 0 && role_of(j).len() > 0
            && role_of(j) != "user"@ && role_of(j) != "assistant"@ ==> turn_text(line) == role_of(j)
            + ": "@ + trimmed(line_text(j)) + "\n\n"@,
{
    reveal_strlit("user");
    reveal_strlit("assistant");
    assert("user"@[0] == 'u' && "assistant"@[0] == 'a');
}

/// Who spoke stands in the message as its role, else in the line as its type; what was
/// said is the content of the message, a text or the texts of its blocks.
pub proof fn roles_and_texts_stand_in_the_message(
    j: JsonView,
    m: JsonView,
    t: Seq<char>,
    items: Seq<JsonView>,
)
    ensures
        field(j, "message"@) == Some(m) && field(m, "role"@) == Some(JsonView::Str(t)) ==> role_of(
            j,
        ) == t,
        field(j, "message"@) is None && field(j, "type"@) == Some(JsonView::Str(t)) ==> role_of(j)
            == t,
        field(j, "message"@) == Some(m) && !(field(m, "role"@) matches Some(JsonView::Str(_)))
            && field(j, "type"@) == Some(JsonView::Str(t)) ==> role_of(j) == t,
        field(j, "message"@) is None && field(j, "type"@) is None ==> role_of(j).len() == 0,
        field(j, "message"@) == Some(m) && field(m, "content"@) == Some(JsonView::Str(t))
            ==> line_text(j) == t,
        field(j, "message"@) == Some(m) && field(m, "content"@) == Some(JsonView::Arr(items))
            ==> line_text(j) == joined(block_texts(items, items.len() as int), "\n"@),
        field(j, "message"@) is None ==> line_text(j).len() == 0,
        field(j, "message"@) == Some(m) && field(m, "content"@) is None ==> line_text(j).len() == 0,
{
}

/// A block says its text, else its content; one that has neither says nothing.
pub proof fn blocks_say_their_text(items: Seq<JsonView>, b: JsonView, s: Seq<char>)
    ensures
        block_texts(Seq::empty(), 0).len() == 0,
        ({
            let before = block_texts(items, items.len() as int);
            let after = block_texts(items.push(b), items.len() as int + 1);
            &&& field(b, "text"@) == Some(JsonView::Str(s)) ==> after == before.push(s)
            &&& !(field(b, "text"@) matches Some(JsonView::Str(_))) && field(b, "content"@) == Some(
                JsonView::Str(s),
            ) ==> after == before.push(s)
            &&& !(field(b, "text"@) matches Some(JsonView::Str(_))) && !(field(b, "content"@)
                matches Some(JsonView::Str(_))) ==> after == before
        }),
{
    lemma_blocks(items, b, items.len() as int);
}

proof fn lemma_blocks(items: Seq<JsonView>, b: JsonView, n: int)
    requires
        0 <= n <= items.len(),
    ensures
        block_texts(items.push(b), n) == block_texts(items, n),
    decreases n,
{
    if n > 0 {
        lemma_blocks(items, b, n - 1);
        assert(items.push(b)[n - 1] == items[n - 1]);
    }
}

// ---- what the observer is asked ----

/// The excerpt of the graph has a line for each node that matches, in their order.
pub proof fn the_excerpt_lists_what_matches(g: GraphView, f: FilterView, n: int)
    requires
        0 < n <= g.nodes.len(),
    ensures
        excerpt_lines(g, f, 0).len() == 0,
        !is_match(g, f, n - 1) ==> excerpt_lines(g, f, n) == excerpt_lines(g, f, n - 1),
        is_match(g, f, n - 1) && g.nodes[n - 1].tags.len() == 0 ==> excerpt_lines(g, f, n)
            == excerpt_lines(g, f, n - 1) + ("- ["@ + g.nodes[n - 1].id + "] ("@
            + g.nodes[n - 1].typ.code() + "/"@ + g.nodes[n - 1].status + ") "@ + shortened(
            g.nodes[n - 1].inhalt,
            100,
            "…"@,
        ) + "\n"@),
        is_match(g, f, n - 1) && g.nodes[n - 1].tags.len() > 0 ==> excerpt_lines(g, f, n)
            == excerpt_lines(g, f, n - 1) + ("- ["@ + g.nodes[n - 1].id + "] ("@
            + g.nodes[n - 1].typ.code() + "/"@ + g.nodes[n - 1].status + ") "@ + shortened(
            g.nodes[n - 1].inhalt,
            100,
            "…"@,
        ) + "  tags: "@ + joined(g.nodes[n - 1].tags, ", "@) + "\n"@),
{
    let x = g.nodes[n - 1];
    let head = "- ["@ + x.id + "] ("@ + x.typ.code() + "/"@ + x.status + ") "@ + shortened(
        x.inhalt,
        100,
        "…"@,
    );
    assert(head + Seq::<char>::empty() =~= head);
    assert(head + ("  tags: "@ + joined(x.tags, ", "@)) + "\n"@ =~= head + "  tags: "@ + joined(
        x.tags,
        ", "@,
    ) + "\n"@);
}

/// The task is the project's own, else the built-in one, with what the project adds.
pub proof fn the_task_is_the_projects(own: Seq<char>, extra: Seq<char>)
    ensures
        task_text(Some(own), None) == own,
        task_text(Some(own), Some(extra)) == own + "\n\n"@ + extra,
        task_text(None, None) == crate::observer::contract::EXTRACTION_PROMPT@,
        task_text(None, Some(extra)) == crate::observer::contract::EXTRACTION_PROMPT@ + "\n\n"@
            + extra,
        task_with_documents(own, Seq::empty()) == own,
{
}

/// The first pass of a session opens a conversation with the task, the graph and the
/// turns; so does the one after thirty turns, with the summary in place of the turns; in
/// between the conversation goes on with the graph and the turns.
pub proof fn conversations_are_opened_and_resumed(
    s: StateView,
    task: Seq<char>,
    delta: Seq<char>,
    graph: Seq<char>,
    fresh: Seq<char>,
)
    ensures
        ({
            let plan = planned(s, task, delta, graph, fresh);
            &&& trimmed(s.observer_sid).len() == 0 ==> plan.observer_sid == fresh && plan.turn_count
                == 1 && plan.is_first && plan.input == "=== TASK ==="@ + "\n"@ + task + "\n"@
                + "\n"@ + ("=== EXISTING GRAPH (excerpt) ==="@ + "\n"@ + graph + "\n"@) + "\n"@ + (
            "=== NEW TURNS (delta) ==="@ + "\n"@ + delta + "\n"@)
            &&& trimmed(s.observer_sid).len() > 0 && s.turn_count >= 30 ==> plan.observer_sid
                == fresh && plan.turn_count == 1 && plan.is_first && plan.input == "=== TASK ==="@
                + "\n"@ + task + "\n"@ + "\n"@ + ("=== SESSION SO FAR (summary) ==="@ + "\n"@
                + s.rolling_summary + "\n"@) + "\n"@ + ("=== EXISTING GRAPH (excerpt) ==="@ + "\n"@
                + graph + "\n"@)
            &&& trimmed(s.observer_sid).len() > 0 && s.turn_count < 30 ==> plan.observer_sid
                == s.observer_sid && plan.turn_count == s.turn_count + 1 && !plan.is_first
                && plan.input == "=== EXISTING GRAPH (excerpt) ==="@ + "\n"@ + graph + "\n"@
                + "\n"@ + ("=== NEW TURNS (delta) ==="@ + "\n"@ + delta + "\n"@)
        }),
{
}

/// The observer is run with the conversation to open or to resume, and with the user's
/// settings only.
pub proof fn runs_open_or_resume(sid: Seq<char>, first: bool)
    ensures
        run_args(sid, true) == seq!["--session-id"@, sid, "--setting-sources"@, "user"@],
        run_args(sid, false) == seq!["--resume"@, sid, "--setting-sources"@, "user"@],
{
}

/// A run gives what it wrote where it ended well and wrote anything, and an error
/// otherwise.
pub proof fn runs_give_what_they_wrote(host: Seq<char>, end: RunEnd)
    ensures
        run_result(host, end) is Ok <==> (end matches RunEnd::Exited { success, stdout, .. }
            && success && stdout@.len() > 0),
        end matches RunEnd::Exited { success, stdout, .. } ==> success && stdout@.len() > 0
            ==> run_result(host, end) == Ok::<Seq<char>, Seq<char>>(stdout@),
        end matches RunEnd::Exited { success, stdout, .. } ==> success && stdout@.len() == 0
            ==> run_result(host, end) == Err::<Seq<char>, Seq<char>>(host + " wrote nothing"@),
        end matches RunEnd::Exited { success, code, stdout, stderr } ==> !success ==> run_result(
            host,
            end,
        ) == Err::<Seq<char>, Seq<char>>(
            host + " exited with failure (code "@ + code@ + "); stderr: "@ + trimmed(stderr@)
                + "; stdout: "@ + trimmed(stdout@),
        ),
        end matches RunEnd::NotStarted(why) ==> run_result(host, end) == Err::<
            Seq<char>,
            Seq<char>,
        >("spawn "@ + host + ": "@ + why@),
        end matches RunEnd::Lost(why) ==> run_result(host, end) == Err::<Seq<char>, Seq<char>>(
            "wait on "@ + host + ": "@ + why@,
        ),
        end is TimedOut ==> run_result(host, end) == Err::<Seq<char>, Seq<char>>(
            "ephemeral "@ + titled(host) + " timed out"@,
        ),
        titled(host).len() == host.len(),
        forall|i: int| 0 < i < host.len() ==> #[trigger] titled(host)[i] == host[i],
        host.len() > 0 && 'a' <= host[0] <= 'z' ==> titled(host)[0] as u32 == host[0] as u32 - 32,
        host.len() > 0 && !('a' <= host[0] <= 'z') ==> titled(host)[0] == host[0],
{
}

// ---- what is remembered ----

/// A pass notes where it stopped, the conversation and its turns, when it ran, and the
/// summary where there is one; a pass without new turns notes only where it stopped.
pub proof fn passes_are_remembered(
    s: StateView,
    stem: Seq<char>,
    mark: u64,
    plan: PlanView,
    summary: Seq<char>,
    now: u64,
)
    ensures
        ({
            let t = run_state(s, stem, mark, plan, summary, now);
            &&& t.jsonl_stem == stem && t.watermark == mark
            &&& t.observer_sid == plan.observer_sid && t.turn_count == plan.turn_count
            &&& t.last_run_at == now
            &&& trimmed(summary).len() > 0 ==> t.rolling_summary == summary
            &&& trimmed(summary).len() == 0 ==> t.rolling_summary == s.rolling_summary
        }),
        ({
            let t = idle_state(s, stem, mark);
            &&& t.jsonl_stem == stem && t.watermark == mark
            &&& t.observer_sid == s.observer_sid && t.turn_count == s.turn_count
            &&& t.last_run_at == s.last_run_at && t.rolling_summary == s.rolling_summary
        }),
{
}

// ---- requests to the daemon ----

/// The payload says the text under the key.
pub open spec fn payload_says(r: RequestView, key: Seq<char>, t: Seq<char>) -> bool {
    field(r.payload, key) == Some(JsonView::Str(t))
}

/// The payload has no text under the key.
pub open spec fn payload_lacks(r: RequestView, key: Seq<char>) -> bool {
    !(field(r.payload, key) matches Some(JsonView::Str(_)))
}

/// A trigger starts a pass for its session, unless one runs already, which skips it; it
/// needs the session and the transcript.
pub proof fn triggers_start_a_pass(
    r: RequestView,
    project: Seq<char>,
    since: u64,
    running: Set<Seq<char>>,
    session: Seq<char>,
    transcript: Seq<char>,
)
    requires
        r.op == "trigger"@,
    ensures
        payload_says(r, "session_id"@, session) && payload_says(
            r,
            "transcript_path"@,
            transcript,
        ) && trimmed(session).len() > 0 && trimmed(transcript).len() > 0 ==> {
            &&& running.contains(session) ==> handled(r, project, since, running)
                == StepView::Reply(accepted(ReplyView::Accepted { skipped: true }))
            &&& !running.contains(session) ==> handled(r, project, since, running)
                == (StepView::StartPass {
                session_id: session,
                transcript,
                reply: accepted(ReplyView::Accepted { skipped: false }),
            })
        },
        payload_lacks(r, "session_id"@) || payload_lacks(r, "transcript_path"@) || (payload_says(
            r,
            "session_id"@,
            session,
        ) && trimmed(session).len() == 0) || (payload_says(r, "transcript_path"@, transcript)
            && trimmed(transcript).len() == 0) ==> handled(r, project, since, running)
            == StepView::Reply(rejected("trigger requires session_id and transcript_path"@)),
{
    lemma_daemon_ops();
    assert(trimmed(Seq::<char>::empty()).len() == 0) by {
        let e = crate::laws::values::trimming_takes_white_ends(Seq::<char>::empty());
    }
}

/// Health, pending hints and subscriptions are answered by the daemon; a hint is that of
/// the session in the payload, else of the request. All else goes to the store, for the
/// project that the daemon serves.
pub proof fn the_rest_goes_to_the_store(
    r: RequestView,
    project: Seq<char>,
    since: u64,
    running: Set<Seq<char>>,
    session: Seq<char>,
)
    ensures
        r.op == "health"@ ==> handled(r, project, since, running) == StepView::Reply(
            accepted(ReplyView::Health { since }),
        ),
        r.op == "subscribe"@ ==> handled(r, project, since, running) == StepView::Reply(
            accepted(ReplyView::NotSubscribed),
        ),
        r.op == "hint_pop"@ && payload_says(r, "session_id"@, session) && trimmed(session).len() > 0
            ==> handled(r, project, since, running) == (StepView::PopHint { session_id: session }),
        r.op == "hint_pop"@ && payload_says(r, "session_id"@, session) && trimmed(session).len()
            == 0 ==> handled(r, project, since, running) == (StepView::PopHint {
            session_id: r.session_id,
        }),
        r.op == "hint_pop"@ && payload_lacks(r, "session_id"@) ==> handled(
            r,
            project,
            since,
            running,
        ) == (StepView::PopHint { session_id: r.session_id }),
        r.op != "health"@ && r.op != "subscribe"@ && r.op != "hint_pop"@ && r.op != "trigger"@
            ==> (handled(r, project, since, running) matches StepView::Store { req }
            && req.project_dir == project && req.op == r.op && req.payload == r.payload
            && req.session_id == r.session_id),
{
    lemma_daemon_ops();
    assert(trimmed(Seq::<char>::empty()).len() == 0) by {
        let e = crate::laws::values::trimming_takes_white_ends(Seq::<char>::empty());
    }
}

proof fn lemma_daemon_ops()
    ensures
        "health"@ != "hint_pop"@,
        "health"@ != "trigger"@,
        "health"@ != "subscribe"@,
        "hint_pop"@ != "trigger"@,
        "hint_pop"@ != "subscribe"@,
        "trigger"@ != "subscribe"@,
{
    reveal_strlit("health");
    reveal_strlit("hint_pop");
    reveal_strlit("trigger");
    reveal_strlit("subscribe");
    assert("health"@.len() == 6 && "hint_pop"@.len() == 8 && "trigger"@.len() == 7
        && "subscribe"@.len() == 9);
}

// ---- the project ----

/// The project is the first directory that is given, else the current one, else `.`.
pub proof fn the_project_is_the_first_given(
    candidates: Seq<Option<String>>,
    cwd: Option<String>,
    i: int,
)
    ensures
        0 <= i < candidates.len() && (candidates[i] matches Some(d) && trimmed(d@).len() > 0)
            && (forall|k: int|
            0 <= k < i ==> !((#[trigger] candidates[k]) matches Some(d) && trimmed(d@).len() > 0))
            ==> project_dir(candidates, cwd) == candidates[i]->0@,
        (forall|k: int|
            0 <= k < candidates.len() ==> !((#[trigger] candidates[k]) matches Some(d) && trimmed(
                d@,
            ).len() > 0)) ==> {
            &&& cwd matches Some(d) ==> project_dir(candidates, cwd) == d@
            &&& cwd is None ==> project_dir(candidates, cwd) == "."@
        },
{
    lemma_first_given(candidates, 0, i);
}

proof fn lemma_first_given(candidates: Seq<Option<String>>, from: int, i: int)
    requires
        0 <= from <= candidates.len(),
    ensures
        from <= i < candidates.len() && (candidates[i] matches Some(d) && trimmed(d@).len() > 0)
            && (forall|k: int|
            from <= k < i ==> !((#[trigger] candidates[k]) matches Some(d) && trimmed(d@).len()
                > 0)) ==> crate::config::first_value(candidates, from) == Some(candidates[i]->0@),
        (forall|k: int|
            from <= k < candidates.len() ==> !((#[trigger] candidates[k]) matches Some(d)
                && trimmed(d@).len() > 0)) ==> crate::config::first_value(candidates, from) is None,
    decreases candidates.len() - from,
{
    if from < candidates.len() {
        lemma_first_given(candidates, from + 1, i);
        let x = candidates[from];
    }
}

/// A directory on the command line is the first argument behind the program's name that
/// is no option and no name of a command.
pub proof fn the_directory_is_the_first_plain_argument(args: Seq<Seq<char>>, from: int, i: int)
    requires
        0 <= from <= i <= args.len(),
        forall|k: int|
            from <= k < i ==> {
                let a = trimmed(#[trigger] args[k]);
                a.len() == 0 || a == "observer"@ || a == "daemon"@ || a == "observer-daemon"@
                    || a[0] == '-'
            },
        i < args.len() ==> {
            let a = trimmed(args[i]);
            a.len() > 0 && a != "observer"@ && a != "daemon"@ && a != "observer-daemon"@ && a[0]
                != '-'
        },
    ensures
        i < args.len() ==> dir_argument(args, from) == Some(args[i]),
        i == args.len() ==> dir_argument(args, from) is None,
    decreases i - from,
{
    reveal_strlit("-");
    if from < i {
        let a = trimmed(args[from]);
        if a.len() > 0 && a[0] == '-' {
            assert("-"@ =~= a.subrange(0, 1));
            assert("-"@.is_prefix_of(a));
        }
        the_directory_is_the_first_plain_argument(args, from + 1, i);
    } else if i < args.len() {
        let a = trimmed(args[i]);
        if "-"@.is_prefix_of(a) {
            assert(a.subrange(0, 1)[0] == '-');
        }
    }
}

/// The variables of the session around it are kept from a run.
pub proof fn runs_know_no_outer_session(name: Seq<char>)
    ensures
        session_marks().contains(name) <==> name == "CLAUDECODE"@ || name
            == "CLAUDE_CODE_ENTRYPOINT"@ || name == "CLAUDE_CODE_SESSION"@,
{
    let m = session_marks();
    assert(m[0] == "CLAUDECODE"@ && m[1] == "CLAUDE_CODE_ENTRYPOINT"@ && m[2]
        == "CLAUDE_CODE_SESSION"@);
    if m.contains(name) {
        let i = choose|i: int| 0 <= i < m.len() && m[i] == name;
        assert(0 <= i < 3);
    }
}

/// The new turns are those of the complete lines that are observed.
pub proof fn new_turns_come_from_complete_lines(buf: Seq<u8>, from: int)
    ensures
        ({
            let read = complete_lines(buf, from);
            let lines = Seq::new(read.len(), |i: int| lossy(read[i]));
            let kept = observed(lines, lines.len() as int);
            delta_of(buf, from) == turns(kept, kept.len() as int)
        }),
{
    let read = complete_lines(buf, from);
    assert(crate::observer::daemon::raw_lines(buf, from) =~= Seq::new(
        read.len(),
        |i: int| lossy(read[i]),
    ));
}

/// What a hook hands over is JSON, white space around it aside; a text in it that is blank
/// counts as missing.
pub proof fn hooks_hand_over_texts(raw: Seq<char>, key: Seq<char>, j: JsonView, t: Seq<char>)
    ensures
        json_of_text(trimmed(raw)) is None ==> hook_text(raw, key) is None,
        json_of_text(trimmed(raw)) == Some(j) && field(j, key) == Some(JsonView::Str(t)) && trimmed(
            t,
        ).len() > 0 ==> hook_text(raw, key) == Some(t),
        json_of_text(trimmed(raw)) == Some(j) && field(j, key) == Some(JsonView::Str(t)) && trimmed(
            t,
        ).len() == 0 ==> hook_text(raw, key) is None,
        json_of_text(trimmed(raw)) == Some(j) && !(field(j, key) matches Some(JsonView::Str(_)))
            ==> hook_text(raw, key) is None,
{
}

/// Time that has gone by is counted in seconds; none has where the clock went back.
pub proof fn time_goes_by(a: u64, b: u64)
    ensures
        a <= b ==> elapsed(a, b) == b - a,
        a > b ==> elapsed(a, b) == 0,
{
}

/// The documents are listed behind the task, each in a line with its id and its title.
pub proof fn documents_are_listed_behind_the_task(
    task: Seq<char>,
    documents: Seq<QuelleView>,
    q: QuelleView,
)
    ensures
        task_with_documents(task, Seq::empty()) == task,
        task_with_documents(task, seq![q]) == task + "\n\nAvailable project documents:\n"@ + (
        "- ["@ + q.id + "] "@ + q.titel + "\n"@),
        documents.len() > 0 ==> task_with_documents(task, documents.push(q))
            == task_with_documents(task, documents) + ("- ["@ + q.id + "] "@ + q.titel + "\n"@),
{
    let line = "- ["@ + q.id + "] "@ + q.titel + "\n"@;
    let head = task + "\n\nAvailable project documents:\n"@;
    let n = documents.len() as int;
    lemma_document_lines(documents, q, n);
    let more = documents.push(q);
    assert(document_lines(more, n + 1) == document_lines(documents, n) + line);
    assert(head + (document_lines(documents, n) + line) =~= head + document_lines(documents, n)
        + line);
    assert(document_lines(seq![q], 0) =~= Seq::empty());
    assert(document_lines(seq![q], 1) =~= line);
}

proof fn lemma_document_lines(documents: Seq<QuelleView>, q: QuelleView, n: int)
    requires
        0 <= n <= documents.len(),
    ensures
        document_lines(documents.push(q), n) == document_lines(documents, n),
    decreases n,
{
    if n > 0 {
        lemma_document_lines(documents, q, n - 1);
        assert(documents.push(q)[n - 1] == documents[n - 1]);
    }
}

} // verus!
