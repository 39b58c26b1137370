//! The extraction contract: the JSON object in which the observer answers, and
//! the prompt that asks for it.
//!
//! ```json
//! {
//!   "ops": [
//!     { "action": "add", "typ": "observation|fact|insight|decision|research|hypothesis",
//!       "inhalt": "…", "begruendung": "…", "tags": ["…"], "quellen": ["<doc-id>"],
//!       "links": [ { "ziel": "<id|title>", "polaritaet": "supports|contradicts|replaces",
//!                    "als": "parent|child" } ] },
//!     { "action": "update", "id": "…", "fields": { "inhalt": "…", "ueberholt": true } },
//!     { "action": "link", "von": "<id|title>", "zu": "<id|title>", "polaritaet": "…" },
//!     { "action": "noop" }
//!   ],
//!   "rolling_summary": "compact updated summary of the session arc"
//! }
//! ```
//! Reading it is robust against prose and code fences around the object, and one
//! malformed operation does not spoil the others.

use vstd::prelude::*;
use vstd::slice::slice_subrange;

use crate::json::{field, item_views, json_of_text, parse_json, Json, JsonView};
use crate::record::{
    deref, fits_record, get_member, has_repeated, is_record, member, needed_text, opt_flag_member,
    opt_text_member, opt_texts, opt_texts_member, read_opt_flag, read_opt_text, read_opt_texts,
    read_text, read_text_or, read_texts, repeats_any, text_or, texts_or_none,
};
use crate::text;
use crate::text::{find_from, rfind_from, texts, trimmed};

verus! {

broadcast use {crate::json::lemma_array_view, crate::json::lemma_object_view};

/// A link that an `add` operation brings along.
#[derive(Debug, Clone, PartialEq)]
pub struct LinkSpec {
    /// The other node: an id or a unique part of a title.
    pub ziel: String,
    /// "supports", "contradicts" or "replaces".
    pub polaritaet: String,
    /// "parent" or "child".
    pub als: String,
}

/// The fields that an `update` operation sets; the others stay as they are.
#[derive(Debug, Clone, PartialEq)]
pub struct UpdateFields {
    pub inhalt: Option<String>,
    pub begruendung: Option<String>,
    pub typ: Option<String>,
    pub tags: Option<Vec<String>>,
    pub ueberholt: Option<bool>,
    pub erledigt: Option<bool>,
    /// The documents that back the node.
    pub quellen: Option<Vec<String>>,
}

/// One operation that the observer wants on the graph.
#[derive(Debug, Clone, PartialEq)]
pub enum Op {
    /// Adds a node.
    Add {
        typ: String,
        inhalt: String,
        begruendung: String,
        tags: Vec<String>,
        links: Vec<LinkSpec>,
        quellen: Vec<String>,
    },
    /// Changes an existing node.
    Update { id: String, fields: UpdateFields },
    /// Adds an edge between two existing nodes.
    Link { von: String, zu: String, polaritaet: String },
    /// Nothing to do; an unknown action is read as this.
    Noop,
}

/// What the observer answered.
#[derive(Debug, Clone, PartialEq)]
pub struct ExtractionResult {
    pub ops: Vec<Op>,
    pub rolling_summary: String,
    /// A one-line pointer to existing knowledge; empty for none.
    pub hint: String,
}

#[verifier::ext_equal]
pub struct LinkSpecView {
    pub ziel: Seq<char>,
    pub polaritaet: Seq<char>,
    pub als: Seq<char>,
}

#[verifier::ext_equal]
pub struct UpdateFieldsView {
    pub inhalt: Option<Seq<char>>,
    pub begruendung: Option<Seq<char>>,
    pub typ: Option<Seq<char>>,
    pub tags: Option<Seq<Seq<char>>>,
    pub ueberholt: Option<bool>,
    pub erledigt: Option<bool>,
    pub quellen: Option<Seq<Seq<char>>>,
}

#[verifier::ext_equal]
pub enum OpView {
    Add {
        typ: Seq<char>,
        inhalt: Seq<char>,
        begruendung: Seq<char>,
        tags: Seq<Seq<char>>,
        links: Seq<LinkSpecView>,
        quellen: Seq<Seq<char>>,
    },
    Update { id: Seq<char>, fields: UpdateFieldsView },
    Link { von: Seq<char>, zu: Seq<char>, polaritaet: Seq<char> },
    Noop,
}

#[verifier::ext_equal]
pub struct ExtractionView {
    pub ops: Seq<OpView>,
    pub rolling_summary: Seq<char>,
    pub hint: Seq<char>,
}

impl View for LinkSpec {
    type V = LinkSpecView;

    open spec fn view(&self) -> LinkSpecView {
        LinkSpecView { ziel: self.ziel@, polaritaet: self.polaritaet@, als: self.als@ }
    }
}

impl View for UpdateFields {
    type V = UpdateFieldsView;

    open spec fn view(&self) -> UpdateFieldsView {
        UpdateFieldsView {
            inhalt: text::opt_text(self.inhalt),
            begruendung: text::opt_text(self.begruendung),
            typ: text::opt_text(self.typ),
            tags: opt_texts(self.tags),
            ueberholt: self.ueberholt,
            erledigt: self.erledigt,
            quellen: opt_texts(self.quellen),
        }
    }
}

impl View for Op {
    type V = OpView;

    open spec fn view(&self) -> OpView {
        match *self {
            Op::Add { typ, inhalt, begruendung, tags, links, quellen } => OpView::Add {
                typ: typ@,
                inhalt: inhalt@,
                begruendung: begruendung@,
                tags: texts(tags@),
                links: links@.map_values(|l: LinkSpec| l@),
                quellen: texts(quellen@),
            },
            Op::Update { id, fields } => OpView::Update { id: id@, fields: fields@ },
            Op::Link { von, zu, polaritaet } => OpView::Link {
                von: von@,
                zu: zu@,
                polaritaet: polaritaet@,
            },
            Op::Noop => OpView::Noop,
        }
    }
}

impl View for ExtractionResult {
    type V = ExtractionView;

    open spec fn view(&self) -> ExtractionView {
        ExtractionView {
            ops: self.ops@.map_values(|o: Op| o@),
            rolling_summary: self.rolling_summary@,
            hint: self.hint@,
        }
    }
}

/// The patch that sets nothing.
pub open spec fn no_fields() -> UpdateFieldsView {
    UpdateFieldsView {
        inhalt: None,
        begruendung: None,
        typ: None,
        tags: None,
        ueberholt: None,
        erledigt: None,
        quellen: None,
    }
}

/// The answer that says nothing.
pub open spec fn no_extraction() -> ExtractionView {
    ExtractionView { ops: Seq::empty(), rolling_summary: Seq::empty(), hint: Seq::empty() }
}

impl Default for UpdateFields {
    fn default() -> (r: UpdateFields)
        ensures
            r@ == no_fields(),
    {
        UpdateFields {
            inhalt: None,
            begruendung: None,
            typ: None,
            tags: None,
            ueberholt: None,
            erledigt: None,
            quellen: None,
        }
    }
}

impl Default for ExtractionResult {
    fn default() -> (r: ExtractionResult)
        ensures
            r@ == no_extraction(),
    {
        let r = ExtractionResult { ops: Vec::new(), rolling_summary: String::new(), hint: String::new() };
        assert(r@ =~= no_extraction());
        r
    }
}

// ---- cutting the object out of the answer ----

/// Where a reader stands inside a JSON text: how many braces are open, and whether
/// it is inside a string or behind a backslash in one.
pub struct Scan {
    pub depth: int,
    pub in_string: bool,
    pub escaped: bool,
}

/// The state behind one more character.
pub open spec fn scan_step(st: Scan, c: char) -> Scan {
    if st.in_string {
        if st.escaped {
            Scan { escaped: false, ..st }
        } else if c == '\\' {
            Scan { escaped: true, ..st }
        } else if c == '"' {
            Scan { in_string: false, ..st }
        } else {
            st
        }
    } else if c == '"' {
        Scan { in_string: true, ..st }
    } else if c == '{' {
        Scan { depth: st.depth + 1, ..st }
    } else if c == '}' {
        Scan { depth: st.depth - 1, ..st }
    } else {
        st
    }
}

/// The state behind the first `n` characters of `s`, read from outside any brace.
pub open spec fn scan(s: Seq<char>, n: int) -> Scan
    decreases n,
{
    if n <= 0 {
        Scan { depth: 0, in_string: false, escaped: false }
    } else {
        scan_step(scan(s, n - 1), s[n - 1])
    }
}

/// The first length at or above `n` at which all braces of `s` are closed again.
pub open spec fn closing(s: Seq<char>, n: int) -> Option<int>
    decreases s.len() - n + 1,
{
    if n < 1 || n > s.len() {
        None
    } else if scan(s, n).depth == 0 {
        Some(n)
    } else {
        closing(s, n + 1)
    }
}

/// The object that begins with the first opening brace of `s` and ends where its
/// braces are balanced. Braces inside quoted strings do not count.
pub open spec fn first_object(s: Seq<char>) -> Option<Seq<char>> {
    match find_from(s, seq!['{'], 0) {
        None => None,
        Some(start) => match closing(s.skip(start), 1) {
            None => None,
            Some(n) => Some(s.skip(start).take(n)),
        },
    }
}

/// An object cut out of a text begins and ends with its own braces, and these are
/// balanced: they are open up to the last character and closed behind it.
pub proof fn object_is_balanced(s: Seq<char>)
    ensures
        first_object(s) matches Some(o) ==> {
            &&& o.len() >= 2
            &&& o[0] == '{'
            &&& o.last() == '}'
            &&& scan(o, o.len() as int).depth == 0
            &&& forall|k: int| 0 < k < o.len() ==> (#[trigger] scan(o, k)).depth > 0
            &&& text::occurs(s, o)
        },
{
    if first_object(s) is Some {
        let start = find_from(s, seq!['{'], 0)->0;
        lemma_find(s, seq!['{'], 0);
        let t = s.skip(start);
        assert(t[0] == s.subrange(start, start + 1)[0]);
        assert(t[0] == '{');
        let n = closing(t, 1)->0;
        assert(scan(t, 1) == scan_step(scan(t, 0), t[0]));
        lemma_closing(t, 1);
        let o = t.take(n);
        assert forall|k: int| 0 <= k <= n implies scan(o, k) == scan(t, k) by {
            lemma_scan_prefix(t, n, k);
        }
        assert(scan(t, n) == scan_step(scan(t, n - 1), t[n - 1]));
        assert(scan(t, n - 1).depth > 0);
        assert(text::occurs_at(s, o, start)) by {
            assert(s.subrange(start, start + o.len()) =~= o);
        }
    }
}

proof fn lemma_find(h: Seq<char>, n: Seq<char>, from: int)
    ensures
        find_from(h, n, from) matches Some(i) ==> from <= i && text::occurs_at(h, n, i),
    decreases h.len() - from + 1,
{
    if 0 <= from <= h.len() && !text::occurs_at(h, n, from) {
        lemma_find(h, n, from + 1);
    }
}

proof fn lemma_closing(t: Seq<char>, n: int)
    requires
        1 <= n,
        forall|k: int| 0 < k < n ==> (#[trigger] scan(t, k)).depth > 0,
        n == 1 ==> t.len() > 0 && t[0] == '{',
        n > 1 ==> scan(t, n - 1).depth > 0,
    ensures
        closing(t, n) matches Some(m) ==> {
            &&& 2 <= m <= t.len()
            &&& scan(t, m).depth == 0
            &&& forall|k: int| 0 < k < m ==> (#[trigger] scan(t, k)).depth > 0
        },
    decreases t.len() - n + 1,
{
    if n <= t.len() {
        assert(scan(t, n) == scan_step(scan(t, n - 1), t[n - 1]));
        if n == 1 {
            assert(scan(t, 0).depth == 0);
        }
        if scan(t, n).depth != 0 {
            lemma_closing(t, n + 1);
        }
    }
}

proof fn lemma_scan_prefix(t: Seq<char>, n: int, k: int)
    requires
        0 <= k <= n <= t.len(),
    ensures
        scan(t.take(n), k) == scan(t, k),
    decreases k,
{
    if k > 0 {
        lemma_scan_prefix(t, n, k - 1);
    }
}

/// Cuts the first balanced object out of a text.
pub fn extract_json_object(s: &str) -> (r: Option<String>)
    ensures
        text::opt_text(r) == first_object(s@),
{
    let v: Vec<char> = text::chars_of(s);
    let brace: Vec<char> = vec!['{'];
    assert(brace@ =~= seq!['{']);
    let start: usize = match text::find(&v, &brace, 0) {
        Some(i) => i,
        None => return None,
    };
    let ghost t = v@.skip(start as int);
    let mut depth: usize = 0;
    let mut in_string: bool = false;
    let mut escaped: bool = false;
    let mut n: usize = 0;
    assert(v@.subrange(start as int, start + 1)[0] == v@[start as int]);
    while n < v.len() - start
        invariant
            start < v.len(),
            v@[start as int] == '{',
            n <= v.len() - start,
            t == v@.skip(start as int),
            depth <= n,
            n > 0 ==> depth > 0,
            scan(t, n as int) == (Scan { depth: depth as int, in_string, escaped }),
            closing(t, 1) == closing(t, n + 1),
            find_from(v@, seq!['{'], 0) == Some(start as int),
            v@ == s@,
        decreases v.len() - start - n,
    {
        let c: char = v[start + n];
        assert(c == t[n as int]);
        assert(scan(t, n + 1) == scan_step(scan(t, n as int), t[n as int]));
        n += 1;
        if in_string {
            if escaped {
                escaped = false;
            } else if c == '\\' {
                escaped = true;
            } else if c == '"' {
                in_string = false;
            }
        } else if c == '"' {
            in_string = true;
        } else if c == '{' {
            depth += 1;
        } else if c == '}' {
            depth -= 1;
            if depth == 0 {
                assert(v@.subrange(start as int, start + n) =~= t.take(n as int));
                return Some(text::string_of(slice_subrange(v.as_slice(), start, start + n)));
            }
        }
    }
    None
}

/// The body of a fenced text: behind the line that opens the fence (which may name
/// a language) and before the last closing fence. Other text is only trimmed.
pub open spec fn unfenced(s: Seq<char>) -> Seq<char> {
    let t = trimmed(s);
    if "```"@.is_prefix_of(t) {
        let rest = t.skip(3);
        let body = match find_from(rest, seq!['\n'], 0) {
            Some(i) => rest.skip(i + 1),
            None => rest,
        };
        match rfind_from(body, "```"@, body.len() as int) {
            Some(i) => body.take(i),
            None => body,
        }
    } else {
        t
    }
}

/// Takes the code fences off a text.
pub fn strip_code_fences(s: &str) -> (r: String)
    ensures
        r@ == unfenced(s@),
{
    let t: String = text::trim(s);
    if !text::starts_with(&t, "```") {
        return t;
    }
    proof {
        reveal_strlit("```");
    }
    let v: Vec<char> = text::chars_of(&t);
    let rest: Vec<char> = tail_from(&v, 3);
    let newline: Vec<char> = vec!['\n'];
    assert(newline@ =~= seq!['\n']);
    let body: Vec<char> = match text::find(&rest, &newline, 0) {
        Some(i) => tail_from(&rest, i + 1),
        None => rest,
    };
    let fence: Vec<char> = text::chars_of("```");
    match text::rfind(&body, &fence) {
        Some(i) => {
            assert(body@.subrange(0, i as int) =~= body@.take(i as int));
            text::string_of(slice_subrange(body.as_slice(), 0, i))
        },
        None => text::string_of(body.as_slice()),
    }
}

fn tail_from(v: &Vec<char>, i: usize) -> (r: Vec<char>)
    requires
        i <= v.len(),
    ensures
        r@ == v@.skip(i as int),
{
    let mut out: Vec<char> = Vec::new();
    let mut k: usize = i;
    while k < v.len()
        invariant
            i <= k <= v.len(),
            out@ == v@.subrange(i as int, k as int),
        decreases v.len() - k,
    {
        out.push(v[k]);
        k += 1;
        assert(v@.subrange(i as int, k as int) =~= v@.subrange(i as int, k - 1).push(v@[k - 1]));
    }
    assert(v@.subrange(i as int, v@.len() as int) =~= v@.skip(i as int));
    out
}

// ---- reading operations ----

/// The link that a value spells out.
pub open spec fn link_of(j: JsonView) -> Option<LinkSpecView> {
    let ziel = needed_text(member(j, "ziel"@, 0));
    let polaritaet = text_or(member(j, "polaritaet"@, 1), "supports"@);
    let als = text_or(member(j, "als"@, 2), "parent"@);
    if is_record(j, 3) && ziel is Some && polaritaet is Some && als is Some {
        Some(LinkSpecView { ziel: ziel->0, polaritaet: polaritaet->0, als: als->0 })
    } else {
        None
    }
}

/// The links that an array spells out; a missing one has none.
pub open spec fn links_of(m: Option<JsonView>) -> Option<Seq<LinkSpecView>> {
    match m {
        None => Some(Seq::empty()),
        Some(JsonView::Arr(items)) => if forall|i: int|
            0 <= i < items.len() ==> link_of(#[trigger] items[i]) is Some {
            Some(items.map_values(|j: JsonView| link_of(j)->0))
        } else {
            None
        },
        _ => None,
    }
}

/// The patch that a value spells out; a missing one sets nothing.
pub open spec fn fields_of(m: Option<JsonView>) -> Option<UpdateFieldsView> {
    match m {
        None => Some(no_fields()),
        Some(j) => {
            let inhalt = opt_text_member(member(j, "inhalt"@, 0));
            let begruendung = opt_text_member(member(j, "begruendung"@, 1));
            let typ = opt_text_member(member(j, "typ"@, 2));
            let tags = opt_texts_member(member(j, "tags"@, 3));
            let ueberholt = opt_flag_member(member(j, "ueberholt"@, 4));
            let erledigt = opt_flag_member(member(j, "erledigt"@, 5));
            let quellen = opt_texts_member(member(j, "quellen"@, 6));
            if is_record(j, 7) && inhalt is Some && begruendung is Some && typ is Some
                && tags is Some && ueberholt is Some && erledigt is Some && quellen is Some {
                Some(
                    UpdateFieldsView {
                        inhalt: inhalt->0,
                        begruendung: begruendung->0,
                        typ: typ->0,
                        tags: tags->0,
                        ueberholt: ueberholt->0,
                        erledigt: erledigt->0,
                        quellen: quellen->0,
                    },
                )
            } else {
                None
            }
        },
    }
}

/// The operation that a value spells out, or nothing where it is malformed. An
/// unknown action is a no-op.
pub open spec fn op_of(j: JsonView) -> Option<OpView> {
    match needed_text(member(j, "action"@, 0)) {
        None => None,
        Some(action) => if action == "add"@ {
            let typ = needed_text(member(j, "typ"@, 1));
            let inhalt = needed_text(member(j, "inhalt"@, 2));
            let begruendung = needed_text(member(j, "begruendung"@, 3));
            let tags = texts_or_none(member(j, "tags"@, 4));
            let links = links_of(member(j, "links"@, 5));
            let quellen = texts_or_none(member(j, "quellen"@, 6));
            if is_record(j, 7) && typ is Some && inhalt is Some && begruendung is Some
                && tags is Some && links is Some && quellen is Some {
                Some(
                    OpView::Add {
                        typ: typ->0,
                        inhalt: inhalt->0,
                        begruendung: begruendung->0,
                        tags: tags->0,
                        links: links->0,
                        quellen: quellen->0,
                    },
                )
            } else {
                None
            }
        } else if action == "update"@ {
            let id = needed_text(member(j, "id"@, 1));
            let fields = fields_of(member(j, "fields"@, 2));
            if is_record(j, 3) && id is Some && fields is Some {
                Some(OpView::Update { id: id->0, fields: fields->0 })
            } else {
                None
            }
        } else if action == "link"@ {
            let von = needed_text(member(j, "von"@, 1));
            let zu = needed_text(member(j, "zu"@, 2));
            let polaritaet = needed_text(member(j, "polaritaet"@, 3));
            if is_record(j, 4) && von is Some && zu is Some && polaritaet is Some {
                Some(OpView::Link { von: von->0, zu: zu->0, polaritaet: polaritaet->0 })
            } else {
                None
            }
        } else if is_record(j, 1) {
            Some(OpView::Noop)
        } else {
            None
        },
    }
}

/// The well-formed operations of a list, in order.
pub open spec fn ops_of(items: Seq<JsonView>) -> Seq<OpView>
    decreases items.len(),
{
    if items.len() == 0 {
        Seq::empty()
    } else {
        let before = ops_of(items.drop_last());
        match op_of(items.last()) {
            Some(op) => before.push(op),
            None => before,
        }
    }
}

/// Operations are read one by one: one that cannot be read is left out, and costs none of
/// the others.
pub proof fn ops_are_read_one_by_one(a: Seq<JsonView>, b: Seq<JsonView>)
    ensures
        ops_of(a + b) == ops_of(a) + ops_of(b),
    decreases b.len(),
{
    if b.len() == 0 {
        assert(a + b =~= a);
    } else {
        assert((a + b).drop_last() =~= a + b.drop_last());
        ops_are_read_one_by_one(a, b.drop_last());
    }
}

/// The answer that a JSON object spells out. Nothing is kept where a member has the
/// wrong type.
pub open spec fn extraction_of(j: JsonView) -> ExtractionView {
    let summary = text_or(field(j, "rolling_summary"@), Seq::empty());
    let hint = text_or(field(j, "hint"@), Seq::empty());
    match field(j, "ops"@) {
        None => if summary is Some && hint is Some {
            ExtractionView { ops: Seq::empty(), rolling_summary: summary->0, hint: hint->0 }
        } else {
            no_extraction()
        },
        Some(JsonView::Arr(items)) => if summary is Some && hint is Some {
            ExtractionView { ops: ops_of(items), rolling_summary: summary->0, hint: hint->0 }
        } else {
            no_extraction()
        },
        _ => no_extraction(),
    }
}

/// The answer that the observer's output holds.
pub open spec fn extraction_in(stdout: Seq<char>) -> ExtractionView {
    match first_object(unfenced(stdout)) {
        None => no_extraction(),
        Some(o) => match json_of_text(o) {
            None => no_extraction(),
            Some(j) => if repeats_any(o, answer_keys()) {
                no_extraction()
            } else {
                extraction_of(j)
            },
        },
    }
}

/// The members of an answer. None of them may be there twice.
pub open spec fn answer_keys() -> Seq<Seq<char>> {
    seq!["ops"@, "rolling_summary"@, "hint"@]
}

/// Reads a link.
pub fn read_link(j: &Json) -> (r: Option<LinkSpec>)
    ensures
        match r {
            Some(l) => link_of(j@) == Some(l@),
            None => link_of(j@) is None,
        },
{
    if !fits_record(j, 3) {
        return None;
    }
    let ziel = read_text(get_member(j, "ziel", 0));
    let polaritaet = read_text_or(get_member(j, "polaritaet", 1), "supports");
    let als = read_text_or(get_member(j, "als", 2), "parent");
    match (ziel, polaritaet, als) {
        (Some(ziel), Some(polaritaet), Some(als)) => Some(LinkSpec { ziel, polaritaet, als }),
        _ => None,
    }
}

fn read_links(m: Option<&Json>) -> (r: Option<Vec<LinkSpec>>)
    ensures
        match r {
            Some(v) => links_of(deref(m)) == Some(v@.map_values(|l: LinkSpec| l@)),
            None => links_of(deref(m)) is None,
        },
{
    match m {
        None => {
            let v: Vec<LinkSpec> = Vec::new();
            assert(v@.map_values(|l: LinkSpec| l@) =~= Seq::empty());
            Some(v)
        },
        Some(Json::Arr(items)) => {
            let mut out: Vec<LinkSpec> = Vec::new();
            let mut i: usize = 0;
            while i < items.len()
                invariant
                    deref(m) == Some(JsonView::Arr(item_views(items@))),
                    i <= items.len(),
                    out.len() == i,
                    forall|k: int| 0 <= k < i ==> link_of(#[trigger] item_views(items@)[k]) is Some,
                    forall|k: int| 0 <= k < i ==> (#[trigger] out@[k])@ == link_of(item_views(items@)[k])->0,
                decreases items.len() - i,
            {
                match read_link(&items[i]) {
                    Some(l) => out.push(l),
                    None => {
                        assert(link_of(item_views(items@)[i as int]) is None);
                        return None;
                    },
                }
                i += 1;
            }
            assert(out@.map_values(|l: LinkSpec| l@) =~= item_views(items@).map_values(
                |j: JsonView| link_of(j)->0,
            ));
            Some(out)
        },
        _ => None,
    }
}

fn read_fields(m: Option<&Json>) -> (r: Option<UpdateFields>)
    ensures
        match r {
            Some(f) => fields_of(deref(m)) == Some(f@),
            None => fields_of(deref(m)) is None,
        },
{
    let j: &Json = match m {
        None => return Some(UpdateFields::default()),
        Some(j) => j,
    };
    if !fits_record(j, 7) {
        return None;
    }
    let inhalt = read_opt_text(get_member(j, "inhalt", 0));
    let begruendung = read_opt_text(get_member(j, "begruendung", 1));
    let typ = read_opt_text(get_member(j, "typ", 2));
    let tags = read_opt_texts(get_member(j, "tags", 3));
    let ueberholt = read_opt_flag(get_member(j, "ueberholt", 4));
    let erledigt = read_opt_flag(get_member(j, "erledigt", 5));
    let quellen = read_opt_texts(get_member(j, "quellen", 6));
    match (inhalt, begruendung, typ, tags, ueberholt, erledigt, quellen) {
        (
            Some(inhalt),
            Some(begruendung),
            Some(typ),
            Some(tags),
            Some(ueberholt),
            Some(erledigt),
            Some(quellen),
        ) => Some(
            UpdateFields { inhalt, begruendung, typ, tags, ueberholt, erledigt, quellen },
        ),
        _ => None,
    }
}

/// Reads an operation.
pub fn read_op(j: &Json) -> (r: Option<Op>)
    ensures
        match r {
            Some(op) => op_of(j@) == Some(op@),
            None => op_of(j@) is None,
        },
{
    let action: String = match read_text(get_member(j, "action", 0)) {
        Some(a) => a,
        None => return None,
    };
    if text::same(&action, "add") {
        if !fits_record(j, 7) {
            return None;
        }
        let typ = read_text(get_member(j, "typ", 1));
        let inhalt = read_text(get_member(j, "inhalt", 2));
        let begruendung = read_text(get_member(j, "begruendung", 3));
        let tags = read_texts(get_member(j, "tags", 4));
        let links = read_links(get_member(j, "links", 5));
        let quellen = read_texts(get_member(j, "quellen", 6));
        match (typ, inhalt, begruendung, tags, links, quellen) {
            (
                Some(typ),
                Some(inhalt),
                Some(begruendung),
                Some(tags),
                Some(links),
                Some(quellen),
            ) => Some(Op::Add { typ, inhalt, begruendung, tags, links, quellen }),
            _ => None,
        }
    } else if text::same(&action, "update") {
        if !fits_record(j, 3) {
            return None;
        }
        let id = read_text(get_member(j, "id", 1));
        let fields = read_fields(get_member(j, "fields", 2));
        match (id, fields) {
            (Some(id), Some(fields)) => Some(Op::Update { id, fields }),
            _ => None,
        }
    } else if text::same(&action, "link") {
        if !fits_record(j, 4) {
            return None;
        }
        let von = read_text(get_member(j, "von", 1));
        let zu = read_text(get_member(j, "zu", 2));
        let polaritaet = read_text(get_member(j, "polaritaet", 3));
        match (von, zu, polaritaet) {
            (Some(von), Some(zu), Some(polaritaet)) => Some(Op::Link { von, zu, polaritaet }),
            _ => None,
        }
    } else if fits_record(j, 1) {
        Some(Op::Noop)
    } else {
        None
    }
}

fn read_ops(items: &Vec<Json>) -> (r: Vec<Op>)
    ensures
        r@.map_values(|o: Op| o@) == ops_of(item_views(items@)),
{
    let mut out: Vec<Op> = Vec::new();
    let mut i: usize = 0;
    assert(out@.map_values(|o: Op| o@) =~= ops_of(item_views(items@).take(0)));
    while i < items.len()
        invariant
            i <= items.len(),
            out@.map_values(|o: Op| o@) == ops_of(item_views(items@).take(i as int)),
        decreases items.len() - i,
    {
        let ghost before = out@;
        assert(item_views(items@).take(i + 1).drop_last() =~= item_views(items@).take(i as int));
        if let Some(op) = read_op(&items[i]) {
            out.push(op);
            assert(out@.map_values(|o: Op| o@) =~= before.map_values(|o: Op| o@).push(op@));
        }
        i += 1;
    }
    assert(item_views(items@).take(items@.len() as int) =~= item_views(items@));
    out
}

/// Reads the answer out of a JSON object.
pub fn read_extraction(j: &Json) -> (r: ExtractionResult)
    ensures
        r@ == extraction_of(j@),
{
    let ops: Vec<Op> = match j.get("ops") {
        None => {
            let v: Vec<Op> = Vec::new();
            assert(v@.map_values(|o: Op| o@) =~= Seq::empty());
            v
        },
        Some(Json::Arr(items)) => read_ops(items),
        Some(_) => return ExtractionResult::default(),
    };
    let rolling_summary = read_text_or(j.get("rolling_summary"), "");
    let hint = read_text_or(j.get("hint"), "");
    proof {
        reveal_strlit("");
        assert(""@ =~= Seq::empty());
    }
    match (rolling_summary, hint) {
        (Some(rolling_summary), Some(hint)) => ExtractionResult { ops, rolling_summary, hint },
        _ => ExtractionResult::default(),
    }
}

/// Reads the observer's output. Output without a readable object counts as an empty
/// answer.
pub fn parse(stdout: &str) -> (r: ExtractionResult)
    ensures
        r@ == extraction_in(stdout@),
{
    let body: String = strip_code_fences(stdout);
    match extract_json_object(&body) {
        None => ExtractionResult::default(),
        Some(o) => match parse_json(&o) {
            None => ExtractionResult::default(),
            Some(j) => {
                let keys: Vec<String> = vec![
                    "ops".to_owned(),
                    "rolling_summary".to_owned(),
                    "hint".to_owned(),
                ];
                assert(texts(keys@) =~= answer_keys());
                if has_repeated(&o, &keys) {
                    ExtractionResult::default()
                } else {
                    read_extraction(&j)
                }
            },
        },
    }
}

/// The prompt that is handed to the observer. What it records stays in the language
/// of the conversation.
pub const EXTRACTION_PROMPT: &'static str = "You are observing a dialogue between a user and a coding agent. Your job is to extract **durable, project-wide** knowledge from it and translate that into structured operations (ADD/UPDATE/LINK) on a scored evidence DAG. You do NOT answer the user and you do NOT steer the agent — you only maintain the knowledge.\n\
\n\
LANGUAGE RULE (read first): Record every item — its statement (inhalt), its rationale (begruendung), any question/value text — AND your rolling summary in the SAME language as the conversation you are observing. Do NOT translate the content to English. These instructions are written in English; that must NOT change the language of what you record. The field KEYS and the schema VALUES below (the typ/status/polaritaet codes) are fixed English identifiers and stay exactly as written regardless of the conversation's language; only the free-text human content follows the conversation.\n\
\n\
RULES:\n\
(1) Capture ONLY durable, project-wide knowledge. Do NOT store transient, session-local process events or control flow — e.g. 'this step only does X', 'Y comes later', 'another agent handles Z', 'user says go', 'tuning skipped', current task scoping. Such things belong in the transcript, not the graph. If a message ALSO contains a durable fact or decision (e.g. a data format), capture ONLY that part.\n\
(2) Choose the node type by SOURCE and CERTAINTY (not by topic), inferred from the phrasing: fact = certain hard info ('it is X', from the user or a database), observation = directly observed / 'looks like', research = looked up externally, hypothesis = uncertain/hedged ('I think', 'probably'), insight = a conclusion you derived yourself, decision = a choice that was made. The user is NOT omniscient — judge by the phrasing, not by the mere fact that it was said. If you are unsure how certain something is or where it comes from, do NOT extract it (when in doubt, leave it out rather than guess).\n\
(3) Every ADD operation REQUIRES a 'begruendung' (otherwise the op is dropped), type-adaptive: for observation/research/hypothesis the question it answers (as a question); for insight the rationale/derivation; for decision its purpose (what it is for); for fact the source it comes from.\n\
(4) Build a GRAPH, not a flat list: when several observation/research/hypothesis nodes point at a higher-level insight, create an insight and connect the evidence (polaritaet 'supports', or 'contradicts' for counter-evidence); ground a decision on what supports it. Create these edges INLINE via the 'links' field of the ADD op (ziel = id OR unique title substring, polaritaet, als 'parent'|'child').\n\
(5) Decisions are a lifecycle, not an evidence vote: status is active / done / superseded, and a decision is not 'weak' just because it lacks evidence. When a choice changes, link the NEW decision to the old one via a LINK op with polaritaet='replaces' (old → superseded) — NEVER leave contradicting decision nodes side by side. If a decision is simply CARRIED OUT (a completed step), mark it via UPDATE with fields.erledigt=true. Correct or retire wrong/outdated nodes via UPDATE with fields.ueberholt=true instead of piling up duplicates.\n\
(6) DEDUP awareness: you are given an excerpt of the existing DAG (nodes with id/title/tags). Check it BEFORE creating anything new. If the thought already exists (even worded differently), use UPDATE (refine the node) or LINK (connect) instead of a blind ADD. Extend earlier insight nodes when new evidence arrives instead of creating new ones.\n\
(7) Tag every node via 'tags' with its topic/area (subsystem or work-stream, e.g. 'pathfinding', 'voxel'), so later work can retrieve just that stream.\n\
(8) Keep each node to ONE concise statement. Also capture one-off/dated specifics (the timestamp is set automatically). Skip pure pleasantries.\n\
(9) DOCUMENTS AS SOURCES: the input is prefixed with an 'Available project documents' section that lists each document with its exact 'id' and title. If an extracted piece of knowledge is backed by / derived from / documented in one of these documents (e.g. a 'fact' whose source is a feature doc, or a 'decision' documented in F00x), cite the relevant document 'id(s)' in the op's 'quellen' array — using the EXACT id from the list, NEVER invented. 'quellen' are SOURCES (an orthogonal evidence layer), NOT links/edges; if nothing backs it, omit 'quellen' or leave it empty.\n\
\n\
OUTPUT FORMAT: Return EXCLUSIVELY a single JSON object, nothing else (no prose text, no code fences before/after), in exactly this form:\n\
{\n\
  \"ops\": [\n\
    { \"action\": \"add\", \"typ\": \"observation|fact|insight|decision|research|hypothesis\",\n\
      \"inhalt\": \"…\", \"begruendung\": \"…\", \"tags\": [\"…\"], \"quellen\": [\"<exact document id>\"],\n\
      \"links\": [ { \"ziel\": \"<id|unique title substring>\", \"polaritaet\": \"supports|contradicts|replaces\", \"als\": \"parent|child\" } ] },\n\
    { \"action\": \"update\", \"id\": \"…\", \"fields\": { \"inhalt\": \"…\", \"ueberholt\": true, \"quellen\": [\"<exact document id>\"] } },\n\
    { \"action\": \"link\", \"von\": \"<id|title>\", \"zu\": \"<id|title>\", \"polaritaet\": \"supports|contradicts|replaces\" },\n\
    { \"action\": \"noop\" }\n\
  ],\n\
  \"rolling_summary\": \"compact, updated summary of the session arc (in the conversation's language)\",\n\
  \"hint\": \"\"\n\
}\n\
The JSON MAY additionally contain an optional top-level 'hint' field: if it looks like the agent needs existing project-wide knowledge it has not fetched, put a SINGLE-LINE pointer in 'hint' (not a command, not a task — just 'knowledge about X exists'); otherwise leave it empty.\n\
If there is nothing durable to capture, return an empty 'ops' list (or a single noop) and only update 'rolling_summary'.";

} // verus!
