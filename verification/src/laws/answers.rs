//! What reading the observer's answer promises, in terms of its text and its JSON.

use vstd::prelude::*;

use crate::json::{field, json_of_text, text_list, JsonView};
use crate::observer::contract::{
    closing, extraction_in, extraction_of, fields_of, first_object, link_of, links_of, op_of, ops_of,
    scan, unfenced, LinkSpecView, OpView, UpdateFieldsView,
};
use crate::record::repeats_any;
use crate::seqs::lemma_filter_push;
use crate::text::{find_from, lemma_trimmed_same, occurs_at, rfind_from, trimmed, white};

verus! {

// ---- single members ----

/// The member spells the text out; a member that is missing or null says that there is none.
pub open spec fn spells_text(m: Option<JsonView>, v: Option<Seq<char>>) -> bool {
    match v {
        Some(t) => m == Some(JsonView::Str(t)),
        None => m is None || m == Some(JsonView::Null),
    }
}

/// The same for a flag.
pub open spec fn spells_flag(m: Option<JsonView>, v: Option<bool>) -> bool {
    match v {
        Some(b) => m == Some(JsonView::Bool(b)),
        None => m is None || m == Some(JsonView::Null),
    }
}

/// The same for a list of texts.
pub open spec fn spells_texts(m: Option<JsonView>, v: Option<Seq<Seq<char>>>) -> bool {
    match v {
        Some(l) => m == Some(JsonView::Arr(l.map_values(|t: Seq<char>| JsonView::Str(t)))),
        None => m is None || m == Some(JsonView::Null),
    }
}

/// The member spells a list out; one that is missing says that it is empty.
pub open spec fn spells_list(m: Option<JsonView>, v: Seq<Seq<char>>) -> bool {
    m == Some(JsonView::Arr(v.map_values(|t: Seq<char>| JsonView::Str(t)))) || (m is None && v.len()
        == 0)
}

proof fn lemma_text_list(m: JsonView, v: Seq<Seq<char>>)
    ensures
        m == JsonView::Arr(v.map_values(|t: Seq<char>| JsonView::Str(t)))
            <==> text_list(m) == Some(v),
{
    if m == JsonView::Arr(v.map_values(|t: Seq<char>| JsonView::Str(t))) {
        let items = m->Arr_0;
        assert forall|i: int| 0 <= i < items.len() implies (#[trigger] items[i]) is Str by {
            assert(items[i] == JsonView::Str(v[i]));
        }
        assert(items.map_values(|j: JsonView| j->Str_0) =~= v);
    }
    if text_list(m) == Some(v) {
        let items = m->Arr_0;
        assert(items =~= v.map_values(|t: Seq<char>| JsonView::Str(t))) by {
            assert forall|i: int| 0 <= i < items.len() implies items[i] == JsonView::Str(v[i]) by {
                assert(items[i] is Str);
            }
        }
    }
}

// ---- operations ----

/// The object spells out the changes of an update, each under its own key.
pub open spec fn spells_fields(j: JsonView, u: UpdateFieldsView) -> bool {
    &&& spells_text(field(j, "inhalt"@), u.inhalt)
    &&& spells_text(field(j, "begruendung"@), u.begruendung)
    &&& spells_text(field(j, "typ"@), u.typ)
    &&& spells_texts(field(j, "tags"@), u.tags)
    &&& spells_flag(field(j, "ueberholt"@), u.ueberholt)
    &&& spells_flag(field(j, "erledigt"@), u.erledigt)
    &&& spells_texts(field(j, "quellen"@), u.quellen)
}

proof fn lemma_actions()
    ensures
        "add"@[0] == 'a',
        "update"@[0] == 'u',
        "link"@[0] == 'l',
{
    reveal_strlit("add");
    reveal_strlit("update");
    reveal_strlit("link");
}

/// An update is read exactly as it is spelled out, field by field, in whatever order its
/// members stand.
pub proof fn updates_are_read_as_spelled(
    j: JsonView,
    id: Seq<char>,
    fields: JsonView,
    u: UpdateFieldsView,
)
    requires
        j is Obj,
        field(j, "action"@) == Some(JsonView::Str("update"@)),
        field(j, "id"@) == Some(JsonView::Str(id)),
        field(j, "fields"@) == Some(fields),
        fields is Obj,
    ensures
        op_of(j) == Some(OpView::Update { id, fields: u }) <==> spells_fields(fields, u),
{
    lemma_actions();
    if let Some(m) = field(fields, "tags"@) {
        if let Some(l) = u.tags {
            lemma_text_list(m, l);
        }
    }
    if let Some(m) = field(fields, "quellen"@) {
        if let Some(l) = u.quellen {
            lemma_text_list(m, l);
        }
    }
    let r = fields_of(Some(fields));
    if op_of(j) == Some(OpView::Update { id, fields: u }) {
        assert(r == Some(u));
    }
    if spells_fields(fields, u) {
        assert(r is Some);
        assert(r->0 =~= u);
    }
}

/// An update without fields changes none.
pub proof fn updates_without_fields_change_none(j: JsonView, id: Seq<char>)
    requires
        j is Obj,
        field(j, "action"@) == Some(JsonView::Str("update"@)),
        field(j, "id"@) == Some(JsonView::Str(id)),
        field(j, "fields"@) is None,
    ensures
        op_of(j) matches Some(OpView::Update { id: i, fields }) && i == id && fields.inhalt is None
            && fields.begruendung is None && fields.typ is None && fields.tags is None
            && fields.ueberholt is None && fields.erledigt is None && fields.quellen is None,
{
    lemma_actions();
}

/// A link of an addition is spelled out: without a polarity it supports, and without saying
/// as what the new node is the parent.
pub open spec fn spells_link(j: JsonView, l: LinkSpecView) -> bool {
    &&& j is Obj
    &&& field(j, "ziel"@) == Some(JsonView::Str(l.ziel))
    &&& field(j, "polaritaet"@) == Some(JsonView::Str(l.polaritaet)) || (field(j, "polaritaet"@)
        is None && l.polaritaet == "supports"@)
    &&& field(j, "als"@) == Some(JsonView::Str(l.als)) || (field(j, "als"@) is None && l.als
        == "parent"@)
}

/// The member spells out a list of links; one that is missing says that there are none.
pub open spec fn spells_links(m: Option<JsonView>, v: Seq<LinkSpecView>) -> bool {
    match m {
        None => v.len() == 0,
        Some(JsonView::Arr(items)) => items.len() == v.len() && forall|i: int|
            0 <= i < items.len() ==> spells_link(#[trigger] items[i], v[i]),
        _ => false,
    }
}

proof fn lemma_link_of(j: JsonView, l: LinkSpecView)
    requires
        j is Obj,
    ensures
        spells_link(j, l) <==> link_of(j) == Some(l),
{
    if spells_link(j, l) {
        assert(link_of(j)->0 =~= l);
    }
}

/// An addition is read as it is spelled out.
pub proof fn additions_are_read_as_spelled(
    j: JsonView,
    typ: Seq<char>,
    inhalt: Seq<char>,
    begruendung: Seq<char>,
    tags: Seq<Seq<char>>,
    links: Seq<LinkSpecView>,
    quellen: Seq<Seq<char>>,
)
    requires
        j is Obj,
        field(j, "action"@) == Some(JsonView::Str("add"@)),
        field(j, "typ"@) == Some(JsonView::Str(typ)),
        field(j, "inhalt"@) == Some(JsonView::Str(inhalt)),
        field(j, "begruendung"@) == Some(JsonView::Str(begruendung)),
        spells_list(field(j, "tags"@), tags),
        spells_links(field(j, "links"@), links),
        spells_list(field(j, "quellen"@), quellen),
    ensures
        op_of(j) == Some(OpView::Add { typ, inhalt, begruendung, tags, links, quellen }),
{
    lemma_actions();
    if let Some(m) = field(j, "tags"@) {
        lemma_text_list(m, tags);
    } else {
        assert(tags =~= Seq::empty());
    }
    if let Some(m) = field(j, "quellen"@) {
        lemma_text_list(m, quellen);
    } else {
        assert(quellen =~= Seq::empty());
    }
    if let Some(JsonView::Arr(items)) = field(j, "links"@) {
        assert forall|i: int| 0 <= i < items.len() implies link_of(#[trigger] items[i]) == Some(
            links[i],
        ) by {
            assert(spells_link(items[i], links[i]));
            lemma_link_of(items[i], links[i]);
        }
        assert(items.map_values(|x: JsonView| link_of(x)->0) =~= links);
    } else {
        assert(links =~= Seq::empty());
    }
    assert(links_of(field(j, "links"@)) == Some(links));
}

/// An addition without a type, a statement or a reason that are texts is not read.
pub proof fn additions_need_type_statement_and_reason(j: JsonView)
    requires
        j is Obj,
        field(j, "action"@) == Some(JsonView::Str("add"@)),
        !(field(j, "typ"@) matches Some(m) && m is Str) || !(field(j, "inhalt"@) matches Some(m)
            && m is Str) || !(field(j, "begruendung"@) matches Some(m) && m is Str),
    ensures
        op_of(j) is None,
{
    lemma_actions();
}

/// A link between two nodes is read as it is spelled out.
pub proof fn links_are_read_as_spelled(
    j: JsonView,
    von: Seq<char>,
    zu: Seq<char>,
    polaritaet: Seq<char>,
)
    requires
        j is Obj,
        field(j, "action"@) == Some(JsonView::Str("link"@)),
    ensures
        op_of(j) == Some(OpView::Link { von, zu, polaritaet }) <==> {
            &&& field(j, "von"@) == Some(JsonView::Str(von))
            &&& field(j, "zu"@) == Some(JsonView::Str(zu))
            &&& field(j, "polaritaet"@) == Some(JsonView::Str(polaritaet))
        },
{
    lemma_actions();
}

/// Any other action is nothing to do, and what names no action is no operation.
pub proof fn other_actions_do_nothing(j: JsonView)
    requires
        j is Obj,
    ensures
        field(j, "action"@) matches Some(JsonView::Str(a)) && a != "add"@ && a != "update"@ && a
            != "link"@ ==> op_of(j) == Some(OpView::Noop),
        !(field(j, "action"@) matches Some(m) && m is Str) ==> op_of(j) is None,
{
}

/// The operations of a list are those of its items that can be read, in their order.
pub proof fn readable_operations_are_read(items: Seq<JsonView>)
    ensures
        ops_of(items) == items.filter(|j: JsonView| op_of(j) is Some).map_values(
            |j: JsonView| op_of(j)->0,
        ),
    decreases items.len(),
{
    let p = |j: JsonView| op_of(j) is Some;
    let v = |j: JsonView| op_of(j)->0;
    if items.len() > 0 {
        let t = items.drop_last();
        readable_operations_are_read(t);
        assert(items =~= t.push(items.last()));
        lemma_filter_push(t, items.last(), p);
        assert(t.filter(p).push(items.last()).map_values(v) =~= t.filter(p).map_values(v).push(
            v(items.last()),
        ));
    } else {
        reveal(Seq::filter);
        assert(items.filter(p).map_values(v) =~= Seq::empty());
    }
}

/// An answer is read as its object says: its operations, its summary and its hint, each of
/// which may be missing.
pub proof fn answers_are_read_as_spelled(
    j: JsonView,
    items: Seq<JsonView>,
    summary: Seq<char>,
    hint: Seq<char>,
)
    requires
        field(j, "ops"@) == Some(JsonView::Arr(items)) || (field(j, "ops"@) is None && items.len()
            == 0),
        field(j, "rolling_summary"@) == Some(JsonView::Str(summary)) || (field(
            j,
            "rolling_summary"@,
        ) is None && summary.len() == 0),
        field(j, "hint"@) == Some(JsonView::Str(hint)) || (field(j, "hint"@) is None && hint.len()
            == 0),
    ensures
        extraction_of(j).ops == items.filter(|x: JsonView| op_of(x) is Some).map_values(
            |x: JsonView| op_of(x)->0,
        ),
        extraction_of(j).rolling_summary == summary,
        extraction_of(j).hint == hint,
{
    readable_operations_are_read(items);
    assert(summary.len() == 0 ==> summary =~= Seq::empty());
    assert(hint.len() == 0 ==> hint =~= Seq::empty());
    assert(items.len() == 0 ==> items =~= Seq::empty());
}

// ---- the object in a text ----

/// A text in which the object stands is read as that object: prose before it and behind it
/// does not matter. The object is one that stands by itself, as `first_object` says of it
/// alone.
pub proof fn prose_around_the_object_does_not_matter(
    before: Seq<char>,
    object: Seq<char>,
    behind: Seq<char>,
)
    requires
        forall|i: int| 0 <= i < before.len() ==> #[trigger] before[i] != '{',
        object.len() > 0,
        object[0] == '{',
        first_object(object) == Some(object),
    ensures
        first_object(before + object + behind) == Some(object),
{
    let s = before + object + behind;
    let k = before.len() as int;
    lemma_first_brace(s, k, 0);
    lemma_first_brace(object, 0, 0);
    assert(object.skip(0) =~= object);
    let n = closing(object, 1)->0;
    lemma_closing(object, 1);
    assert(object.take(n) =~= object);
    assert(n == object.len());
    assert(s.skip(k) =~= object + behind);
    lemma_closing_longer(object, behind, 1);
    assert((object + behind).take(n) =~= object);
}

proof fn lemma_first_brace(s: Seq<char>, k: int, from: int)
    requires
        0 <= from <= k < s.len(),
        s[k] == '{',
        forall|i: int| from <= i < k ==> #[trigger] s[i] != '{',
    ensures
        find_from(s, seq!['{'], from) == Some(k),
    decreases k - from,
{
    if from < k {
        assert(s.subrange(from, from + 1)[0] == s[from]);
        assert(seq!['{'][0] == '{');
        lemma_first_brace(s, k, from + 1);
    } else {
        assert(s.subrange(k, k + 1) =~= seq!['{']);
    }
}

proof fn lemma_closing(s: Seq<char>, n: int)
    ensures
        closing(s, n) matches Some(m) ==> n <= m <= s.len() && 1 <= m,
    decreases s.len() - n + 1,
{
    if 1 <= n <= s.len() && scan(s, n).depth != 0 {
        lemma_closing(s, n + 1);
    }
}

proof fn lemma_scan_same(a: Seq<char>, b: Seq<char>, n: int)
    requires
        0 <= n <= a.len(),
        n <= b.len(),
        forall|i: int| 0 <= i < n ==> a[i] == b[i],
    ensures
        scan(a, n) == scan(b, n),
    decreases n,
{
    if n > 0 {
        lemma_scan_same(a, b, n - 1);
    }
}

proof fn lemma_closing_longer(s: Seq<char>, behind: Seq<char>, n: int)
    requires
        closing(s, n) is Some,
    ensures
        closing(s + behind, n) == closing(s, n),
    decreases s.len() - n + 1,
{
    lemma_scan_same(s, s + behind, n);
    if scan(s, n).depth != 0 {
        lemma_closing_longer(s, behind, n + 1);
    }
}

/// Where a reader stands behind a string is where it stood before it: braces inside of
/// strings do not count, and neither do quotes that are escaped.
pub proof fn strings_do_not_nest(s: Seq<char>, t: Seq<char>)
    requires
        !scan(s, s.len() as int).in_string,
        !scan(s, s.len() as int).escaped,
        forall|i: int| 0 <= i < t.len() ==> #[trigger] t[i] != '"' && t[i] != '\\',
    ensures
        ({
            let a = s + seq!['"'] + t + seq!['"'];
            let b = s + seq!['"', '\\', '"'] + t + seq!['"'];
            &&& scan(a, a.len() as int) == scan(s, s.len() as int)
            &&& scan(b, b.len() as int) == scan(s, s.len() as int)
        }),
{
    let n = s.len() as int;
    let a = s + seq!['"'] + t + seq!['"'];
    let b = s + seq!['"', '\\', '"'] + t + seq!['"'];
    lemma_scan_same(s, a, n);
    lemma_scan_same(s, b, n);
    assert(a[n] == '"' && b[n] == '"' && b[n + 1] == '\\' && b[n + 2] == '"');
    assert(scan(a, n + 1).in_string);
    assert(scan(b, n + 1).in_string);
    assert(scan(b, n + 2).escaped);
    lemma_inside(a, n + 1, t.len() as int);
    lemma_inside(b, n + 3, t.len() as int);
    assert(a[n + 1 + t.len()] == '"');
    assert(b[n + 3 + t.len()] == '"');
}

proof fn lemma_inside(s: Seq<char>, from: int, n: int)
    requires
        0 <= from,
        0 <= n,
        from + n <= s.len(),
        scan(s, from).in_string,
        !scan(s, from).escaped,
        forall|i: int| from <= i < from + n ==> #[trigger] s[i] != '"' && s[i] != '\\',
    ensures
        scan(s, from + n) == scan(s, from),
    decreases n,
{
    if n > 0 {
        lemma_inside(s, from, n - 1);
        assert(s[from + n - 1] != '"');
    }
}

/// Outside of strings a brace opens or closes, and no other character but a quote counts.
pub proof fn braces_nest(s: Seq<char>, c: char)
    requires
        !scan(s, s.len() as int).in_string,
    ensures
        ({
            let d = scan(s, s.len() as int).depth;
            let r = scan(s.push(c), s.len() as int + 1);
            &&& c == '{' ==> r.depth == d + 1
            &&& c == '}' ==> r.depth == d - 1
            &&& c != '{' && c != '}' ==> r.depth == d
            &&& r.in_string <==> c == '"'
        }),
{
    lemma_scan_same(s, s.push(c), s.len() as int);
}

/// A text without a brace holds no object.
pub proof fn no_brace_no_object(s: Seq<char>)
    requires
        forall|i: int| 0 <= i < s.len() ==> #[trigger] s[i] != '{',
    ensures
        first_object(s) is None,
{
    lemma_no_brace(s, 0);
}

proof fn lemma_no_brace(s: Seq<char>, from: int)
    requires
        0 <= from,
        forall|i: int| 0 <= i < s.len() ==> #[trigger] s[i] != '{',
    ensures
        find_from(s, seq!['{'], from) is None,
    decreases s.len() - from + 1,
{
    if from < s.len() {
        assert(s.subrange(from, from + 1)[0] == s[from]);
        assert(seq!['{'][0] == '{');
    }
    if from <= s.len() {
        lemma_no_brace(s, from + 1);
    }
}

/// A fence around the answer is taken away, with what stands behind its opening marks.
pub proof fn fences_are_taken_away(tag: Seq<char>, body: Seq<char>)
    requires
        forall|i: int| 0 <= i < tag.len() ==> #[trigger] tag[i] != '\n',
    ensures
        unfenced(seq!['`', '`', '`'] + tag + seq!['\n'] + body + seq!['`', '`', '`']) == body,
{
    reveal_strlit("```");
    let marks = seq!['`', '`', '`'];
    assert("```"@ =~= marks);
    let s = marks + tag + seq!['\n'] + body + marks;
    assert(!white('`'));
    assert(s[0] == '`' && s.last() == '`');
    lemma_trimmed_same(s);
    assert(s.take(3) =~= marks);
    assert(marks.is_prefix_of(s)) by {
        assert(s.subrange(0, 3) =~= marks);
    }
    let rest = s.skip(3);
    assert(rest =~= tag + seq!['\n'] + body + marks);
    lemma_first_break_at(rest, tag.len() as int, 0);
    let inner = rest.skip(tag.len() as int + 1);
    assert(inner =~= body + marks);
    assert(inner.subrange(body.len() as int, body.len() as int + 3) =~= marks);
    lemma_last_marks(inner, body.len() as int);
    assert(inner.take(body.len() as int) =~= body);
}

proof fn lemma_first_break_at(s: Seq<char>, k: int, from: int)
    requires
        0 <= from <= k < s.len(),
        s[k] == '\n',
        forall|i: int| from <= i < k ==> #[trigger] s[i] != '\n',
    ensures
        find_from(s, seq!['\n'], from) == Some(k),
    decreases k - from,
{
    if from < k {
        assert(s.subrange(from, from + 1)[0] == s[from]);
        assert(seq!['\n'][0] == '\n');
        lemma_first_break_at(s, k, from + 1);
    } else {
        assert(s.subrange(k, k + 1) =~= seq!['\n']);
    }
}

proof fn lemma_last_marks(s: Seq<char>, k: int)
    requires
        k + 3 == s.len(),
        0 <= k,
        s.subrange(k, k + 3) == seq!['`', '`', '`'],
    ensures
        rfind_from(s, seq!['`', '`', '`'], s.len() as int) == Some(k),
{
    let m = seq!['`', '`', '`'];
    assert(!occurs_at(s, m, k + 3));
    assert(!occurs_at(s, m, k + 2));
    assert(!occurs_at(s, m, k + 1));
    assert(occurs_at(s, m, k));
    reveal_with_fuel(rfind_from, 5);
}

/// A text that does not begin with a fence is trimmed, and else left as it is.
pub proof fn texts_without_fences_stay(s: Seq<char>)
    requires
        trimmed(s).len() == 0 || trimmed(s)[0] != '`',
    ensures
        unfenced(s) == trimmed(s),
{
    reveal_strlit("```");
    assert("```"@ =~= seq!['`', '`', '`']);
    if "```"@.is_prefix_of(trimmed(s)) {
        assert(trimmed(s).subrange(0, 3)[0] == '`');
    }
}

/// The answer is read from the first object of its text, fences aside.
pub proof fn the_first_object_is_read(stdout: Seq<char>, o: Seq<char>, j: JsonView)
    requires
        first_object(unfenced(stdout)) == Some(o),
        json_of_text(o) == Some(j),
        !repeats_any(o, seq!["ops"@, "rolling_summary"@, "hint"@]),
    ensures
        extraction_in(stdout) == extraction_of(j),
{
}

/// An answer that has one of its members twice says nothing.
pub proof fn repeated_members_say_nothing(stdout: Seq<char>, o: Seq<char>)
    requires
        first_object(unfenced(stdout)) == Some(o),
        repeats_any(o, seq!["ops"@, "rolling_summary"@, "hint"@]),
    ensures
        extraction_in(stdout).ops.len() == 0,
        extraction_in(stdout).rolling_summary.len() == 0,
        extraction_in(stdout).hint.len() == 0,
{
}

/// A text without an object, or whose object is no JSON, says nothing.
pub proof fn no_object_says_nothing(stdout: Seq<char>)
    requires
        first_object(unfenced(stdout)) is None || json_of_text(
            first_object(unfenced(stdout))->0,
        ) is None,
    ensures
        extraction_in(stdout).ops.len() == 0,
        extraction_in(stdout).rolling_summary.len() == 0,
        extraction_in(stdout).hint.len() == 0,
{
}

} // verus!
