//! The lists beside the node files: edges, questions and documents, each in a file of its
//! own, as JSON.

use vstd::prelude::*;

use crate::json::{
    json_of_text, kept_number, lookup, parse_json, settled, sorted_keys, text_list, texts_json,
    write_json_pretty, written_pretty, Json, JsonView, MAX_DEPTH,
};
use crate::record::{
    fits_record, get_member, is_record, member, needed_text, read_text, read_texts, texts_or_none,
};
use crate::score::Score;
use crate::store::model::{
    edge_views, frage_views, quelle_views, Edge, EdgeView, Frage, FrageView, Quelle, QuelleView,
};
use crate::text;
use crate::wire::{
    edge_json, edges_json, frage_json, fragen_json, quelle_json, quellen_json, score_json,
    write_edges, write_fragen, write_quellen, Numerals,
};

verus! {

broadcast use {crate::json::lemma_array_view, crate::json::lemma_object_view};

/// An edge that was read: the edge without its weight, and the weight's text.
#[derive(Debug, Clone)]
pub struct EdgeEntry {
    pub edge: Edge,
    pub gewicht: String,
}

#[verifier::ext_equal]
pub struct EdgeEntryView {
    pub edge: EdgeView,
    pub gewicht: Seq<char>,
}

impl View for EdgeEntry {
    type V = EdgeEntryView;

    open spec fn view(&self) -> EdgeEntryView {
        EdgeEntryView { edge: self.edge@, gewicht: self.gewicht@ }
    }
}

// ---- what a list says ----

/// The edge that a record says: all its members have to be there.
pub open spec fn edge_of_json(j: JsonView) -> Option<EdgeEntryView> {
    let id = needed_text(member(j, "id"@, 0));
    let von = needed_text(member(j, "von"@, 1));
    let zu = needed_text(member(j, "zu"@, 2));
    let polaritaet = needed_text(member(j, "polaritaet"@, 3));
    let gewicht = match member(j, "gewicht"@, 4) {
        Some(JsonView::Number(t)) => Some(t),
        _ => None,
    };
    if is_record(j, 5) && id is Some && von is Some && zu is Some && polaritaet is Some
        && gewicht is Some {
        Some(
            EdgeEntryView {
                edge: EdgeView {
                    id: id->0,
                    von: von->0,
                    zu: zu->0,
                    polaritaet: polaritaet->0,
                    gewicht: Score { bits: 0 },
                },
                gewicht: gewicht->0,
            },
        )
    } else {
        None
    }
}

/// The question that a record says; its values may be missing.
pub open spec fn frage_of_json(j: JsonView) -> Option<FrageView> {
    let id = needed_text(member(j, "id"@, 0));
    let inhalt = needed_text(member(j, "inhalt"@, 1));
    let werte = texts_or_none(member(j, "werte"@, 2));
    if is_record(j, 3) && id is Some && inhalt is Some && werte is Some {
        Some(FrageView { id: id->0, inhalt: inhalt->0, werte: werte->0 })
    } else {
        None
    }
}

/// The document that a record says: all its members have to be there.
pub open spec fn quelle_of_json(j: JsonView) -> Option<QuelleView> {
    let id = needed_text(member(j, "id"@, 0));
    let pfad = needed_text(member(j, "pfad"@, 1));
    let titel = needed_text(member(j, "titel"@, 2));
    let art = needed_text(member(j, "art"@, 3));
    if is_record(j, 4) && id is Some && pfad is Some && titel is Some && art is Some {
        Some(QuelleView { id: id->0, pfad: pfad->0, titel: titel->0, art: art->0 })
    } else {
        None
    }
}

/// Reads each item of a list; nothing where one of them cannot be read.
pub open spec fn each_read<V>(
    items: Seq<JsonView>,
    read: spec_fn(JsonView) -> Option<V>,
) -> Option<Seq<V>> {
    if forall|i: int| 0 <= i < items.len() ==> read(#[trigger] items[i]) is Some {
        Some(items.map_values(|j: JsonView| read(j)->0))
    } else {
        None
    }
}

/// The list that the text of a file says. What is no list of such records says nothing.
pub open spec fn list_of_text<V>(
    text: Seq<char>,
    read: spec_fn(JsonView) -> Option<V>,
) -> Seq<V> {
    match json_of_text(text) {
        Some(JsonView::Arr(items)) => match each_read(items, read) {
            Some(v) => v,
            None => Seq::empty(),
        },
        _ => Seq::empty(),
    }
}

pub open spec fn edges_of_text(text: Seq<char>) -> Seq<EdgeEntryView> {
    list_of_text(text, |j: JsonView| edge_of_json(j))
}

pub open spec fn fragen_of_text(text: Seq<char>) -> Seq<FrageView> {
    list_of_text(text, |j: JsonView| frage_of_json(j))
}

pub open spec fn quellen_of_text(text: Seq<char>) -> Seq<QuelleView> {
    list_of_text(text, |j: JsonView| quelle_of_json(j))
}

pub open spec fn entry_views(v: Seq<EdgeEntry>) -> Seq<EdgeEntryView> {
    v.map_values(|e: EdgeEntry| e@)
}

// ---- reading ----

fn read_edge(j: &Json) -> (r: Option<EdgeEntry>)
    ensures
        match r {
            Some(e) => edge_of_json(j@) == Some(e@),
            None => edge_of_json(j@) is None,
        },
{
    let id: Option<String> = read_text(get_member(j, "id", 0));
    let von: Option<String> = read_text(get_member(j, "von", 1));
    let zu: Option<String> = read_text(get_member(j, "zu", 2));
    let polaritaet: Option<String> = read_text(get_member(j, "polaritaet", 3));
    let gewicht: Option<String> = match get_member(j, "gewicht", 4) {
        Some(Json::Number(t)) => Some(t.clone()),
        _ => None,
    };
    if !fits_record(j, 5) {
        return None;
    }
    match (id, von, zu, polaritaet, gewicht) {
        (Some(id), Some(von), Some(zu), Some(polaritaet), Some(gewicht)) => Some(
            EdgeEntry {
                edge: Edge { id, von, zu, polaritaet, gewicht: Score { bits: 0 } },
                gewicht,
            },
        ),
        _ => None,
    }
}

fn read_frage(j: &Json) -> (r: Option<Frage>)
    ensures
        match r {
            Some(f) => frage_of_json(j@) == Some(f@),
            None => frage_of_json(j@) is None,
        },
{
    let id: Option<String> = read_text(get_member(j, "id", 0));
    let inhalt: Option<String> = read_text(get_member(j, "inhalt", 1));
    let werte: Option<Vec<String>> = read_texts(get_member(j, "werte", 2));
    if !fits_record(j, 3) {
        return None;
    }
    match (id, inhalt, werte) {
        (Some(id), Some(inhalt), Some(werte)) => Some(Frage { id, inhalt, werte }),
        _ => None,
    }
}

fn read_quelle(j: &Json) -> (r: Option<Quelle>)
    ensures
        match r {
            Some(q) => quelle_of_json(j@) == Some(q@),
            None => quelle_of_json(j@) is None,
        },
{
    let id: Option<String> = read_text(get_member(j, "id", 0));
    let pfad: Option<String> = read_text(get_member(j, "pfad", 1));
    let titel: Option<String> = read_text(get_member(j, "titel", 2));
    let art: Option<String> = read_text(get_member(j, "art", 3));
    if !fits_record(j, 4) {
        return None;
    }
    match (id, pfad, titel, art) {
        (Some(id), Some(pfad), Some(titel), Some(art)) => Some(Quelle { id, pfad, titel, art }),
        _ => None,
    }
}

/// Reads the list of edges from the text of its file. Of two fields of a record with one
/// key the later counts.
pub fn read_edges(text: &str) -> (r: Vec<EdgeEntry>)
    ensures
        entry_views(r@) == edges_of_text(text@),
{
    let mut out: Vec<EdgeEntry> = Vec::new();
    let ghost read = |j: JsonView| edge_of_json(j);
    assert(entry_views(out@) =~= Seq::empty());
    if let Some(Json::Arr(items)) = parse_json(text) {
        let mut i: usize = 0;
        while i < items.len()
            invariant
                i <= items.len(),
                read == (|j: JsonView| edge_of_json(j)),
                json_of_text(text@) == Some(Json::Arr(items)@),
                out.len() == i,
                forall|k: int|
                    0 <= k < i ==> edge_of_json(items@[k]@) == Some((#[trigger] out@[k])@),
            decreases items.len() - i,
        {
            match read_edge(&items[i]) {
                Some(e) => out.push(e),
                None => {
                    assert(read(crate::json::item_views(items@)[i as int]) is None);
                    let none: Vec<EdgeEntry> = Vec::new();
                    assert(entry_views(none@) =~= Seq::empty());
                    return none;
                },
            }
            i += 1;
        }
        proof {
            let views = crate::json::item_views(items@);
            assert forall|k: int| 0 <= k < views.len() implies read(#[trigger] views[k]) is Some by {
                assert(edge_of_json(items@[k]@) == Some(out@[k]@));
            }
            assert(entry_views(out@) =~= views.map_values(|j: JsonView| read(j)->0)) by {
                assert forall|k: int| 0 <= k < out@.len() implies #[trigger] entry_views(out@)[k]
                    == views.map_values(|j: JsonView| read(j)->0)[k] by {
                    assert(edge_of_json(items@[k]@) == Some(out@[k]@));
                }
            }
        }
    }
    out
}

/// Reads the list of questions from the text of its file.
pub fn read_fragen(text: &str) -> (r: Vec<Frage>)
    ensures
        frage_views(r@) == fragen_of_text(text@),
{
    let mut out: Vec<Frage> = Vec::new();
    let ghost read = |j: JsonView| frage_of_json(j);
    assert(frage_views(out@) =~= Seq::empty());
    if let Some(Json::Arr(items)) = parse_json(text) {
        let mut i: usize = 0;
        while i < items.len()
            invariant
                i <= items.len(),
                read == (|j: JsonView| frage_of_json(j)),
                json_of_text(text@) == Some(Json::Arr(items)@),
                out.len() == i,
                forall|k: int|
                    0 <= k < i ==> frage_of_json(items@[k]@) == Some((#[trigger] out@[k])@),
            decreases items.len() - i,
        {
            match read_frage(&items[i]) {
                Some(f) => out.push(f),
                None => {
                    assert(read(crate::json::item_views(items@)[i as int]) is None);
                    let none: Vec<Frage> = Vec::new();
                    assert(frage_views(none@) =~= Seq::empty());
                    return none;
                },
            }
            i += 1;
        }
        proof {
            let views = crate::json::item_views(items@);
            assert forall|k: int| 0 <= k < views.len() implies read(#[trigger] views[k]) is Some by {
                assert(frage_of_json(items@[k]@) == Some(out@[k]@));
            }
            assert(frage_views(out@) =~= views.map_values(|j: JsonView| read(j)->0)) by {
                assert forall|k: int| 0 <= k < out@.len() implies #[trigger] frage_views(out@)[k]
                    == views.map_values(|j: JsonView| read(j)->0)[k] by {
                    assert(frage_of_json(items@[k]@) == Some(out@[k]@));
                }
            }
        }
    }
    out
}

/// Reads the list of documents from the text of its file.
pub fn read_quellen(text: &str) -> (r: Vec<Quelle>)
    ensures
        quelle_views(r@) == quellen_of_text(text@),
{
    let mut out: Vec<Quelle> = Vec::new();
    let ghost read = |j: JsonView| quelle_of_json(j);
    assert(quelle_views(out@) =~= Seq::empty());
    if let Some(Json::Arr(items)) = parse_json(text) {
        let mut i: usize = 0;
        while i < items.len()
            invariant
                i <= items.len(),
                read == (|j: JsonView| quelle_of_json(j)),
                json_of_text(text@) == Some(Json::Arr(items)@),
                out.len() == i,
                forall|k: int|
                    0 <= k < i ==> quelle_of_json(items@[k]@) == Some((#[trigger] out@[k])@),
            decreases items.len() - i,
        {
            match read_quelle(&items[i]) {
                Some(q) => out.push(q),
                None => {
                    assert(read(crate::json::item_views(items@)[i as int]) is None);
                    let none: Vec<Quelle> = Vec::new();
                    assert(quelle_views(none@) =~= Seq::empty());
                    return none;
                },
            }
            i += 1;
        }
        proof {
            let views = crate::json::item_views(items@);
            assert forall|k: int| 0 <= k < views.len() implies read(#[trigger] views[k]) is Some by {
                assert(quelle_of_json(items@[k]@) == Some(out@[k]@));
            }
            assert(quelle_views(out@) =~= views.map_values(|j: JsonView| read(j)->0)) by {
                assert forall|k: int| 0 <= k < out@.len() implies #[trigger] quelle_views(out@)[k]
                    == views.map_values(|j: JsonView| read(j)->0)[k] by {
                    assert(quelle_of_json(items@[k]@) == Some(out@[k]@));
                }
            }
        }
    }
    out
}

// ---- writing ----

/// The text of an edge's weight.
pub open spec fn weight_text(m: Seq<(Score, Seq<char>)>, e: EdgeView) -> Seq<char> {
    score_json(m, e.gewicht)->Number_0
}

/// Each weight has a text, which is read as it is written.
pub open spec fn weights_kept(m: Seq<(Score, Seq<char>)>, edges: Seq<EdgeView>) -> bool {
    forall|i: int|
        0 <= i < edges.len() ==> score_json(m, (#[trigger] edges[i]).gewicht) is Number
            && kept_number(weight_text(m, edges[i]))
}

/// An edge as it is read from its list: its weight is a text.
pub open spec fn edge_entry(m: Seq<(Score, Seq<char>)>, e: EdgeView) -> EdgeEntryView {
    EdgeEntryView {
        edge: EdgeView { gewicht: Score { bits: 0 }, ..e },
        gewicht: weight_text(m, e),
    }
}

/// The text of the file of edges. What is read from it is what was written, where the
/// texts of the weights are kept.
pub fn edges_text(m: &Numerals, edges: &Vec<Edge>) -> (r: String)
    ensures
        r@ == written_pretty(edges_json(m@, edge_views(edges@))),
        weights_kept(m@, edge_views(edges@)) ==> edges_of_text(r@) == edge_views(edges@).map_values(
            |e: EdgeView| edge_entry(m@, e),
        ),
{
    proof {
        if weights_kept(m@, edge_views(edges@)) {
            lemma_edges_read(m@, edge_views(edges@));
        }
    }
    write_json_pretty(write_edges(m, edges))
}

/// The text of the file of questions. What is read from it is what was written.
pub fn fragen_text(fragen: &Vec<Frage>) -> (r: String)
    ensures
        r@ == written_pretty(fragen_json(frage_views(fragen@))),
        fragen_of_text(r@) == frage_views(fragen@),
{
    proof {
        lemma_fragen_read(frage_views(fragen@));
    }
    write_json_pretty(write_fragen(fragen))
}

/// The text of the file of documents. What is read from it is what was written.
pub fn quellen_text(quellen: &Vec<Quelle>) -> (r: String)
    ensures
        r@ == written_pretty(quellen_json(quelle_views(quellen@))),
        quellen_of_text(r@) == quelle_views(quellen@),
{
    proof {
        lemma_quellen_read(quelle_views(quellen@));
    }
    write_json_pretty(write_quellen(quellen))
}

// ---- what is written is read back ----

/// A key of an object whose keys are sorted leads to its own field.
proof fn lemma_lookup_at(fields: Seq<(Seq<char>, JsonView)>, i: int)
    requires
        sorted_keys(fields),
        0 <= i < fields.len(),
    ensures
        lookup(fields, fields[i].0) == Some(fields[i].1),
    decreases i,
{
    if i > 0 {
        text::lemma_less_total(fields[0].0, fields[i].0);
        assert(text::less(fields[0].0, fields[i].0));
        let rest = fields.skip(1);
        assert forall|a: int, b: int| 0 <= a < b < rest.len() implies text::less(
            (#[trigger] rest[a]).0,
            (#[trigger] rest[b]).0,
        ) by {
            assert(rest[a] == fields[a + 1] && rest[b] == fields[b + 1]);
        }
        lemma_lookup_at(rest, i - 1);
    }
}

proof fn lemma_texts_settled(v: Seq<Seq<char>>, depth: nat)
    requires
        depth > 0,
    ensures
        settled(texts_json(v), depth),
        text_list(texts_json(v)) == Some(v),
{
    let items = texts_json(v)->Arr_0;
    assert forall|i: int| 0 <= i < items.len() implies settled(
        #[trigger] items[i],
        (depth - 1) as nat,
    ) by {
        assert(items[i] == JsonView::Str(v[i]));
    }
    assert(items.map_values(|j: JsonView| j->Str_0) =~= v);
}

proof fn lemma_edge_read(m: Seq<(Score, Seq<char>)>, e: EdgeView)
    requires
        score_json(m, e.gewicht) is Number,
        kept_number(weight_text(m, e)),
    ensures
        settled(edge_json(m, e), 99),
        edge_of_json(edge_json(m, e)) == Some(edge_entry(m, e)),
{
    reveal_strlit("gewicht");
    reveal_strlit("id");
    reveal_strlit("polaritaet");
    reveal_strlit("von");
    reveal_strlit("zu");
    let f = edge_json(m, e)->Obj_0;
    assert(f[0].0[0] == 'g' && f[1].0[0] == 'i' && f[2].0[0] == 'p' && f[3].0[0] == 'v'
        && f[4].0[0] == 'z');
    assert(sorted_keys(f));
    assert forall|i: int| 0 <= i < f.len() implies settled((#[trigger] f[i]).1, 98) by {}
    lemma_lookup_at(f, 0);
    lemma_lookup_at(f, 1);
    lemma_lookup_at(f, 2);
    lemma_lookup_at(f, 3);
    lemma_lookup_at(f, 4);
}

proof fn lemma_frage_read(q: FrageView)
    ensures
        settled(frage_json(q), 99),
        frage_of_json(frage_json(q)) == Some(q),
{
    reveal_strlit("id");
    reveal_strlit("inhalt");
    reveal_strlit("werte");
    let f = frage_json(q)->Obj_0;
    assert(f[0].0[0] == 'i' && f[1].0[0] == 'i' && f[2].0[0] == 'w');
    assert(f[0].0.skip(1)[0] == 'd' && f[1].0.skip(1)[0] == 'n');
    assert(text::less(f[0].0.skip(1), f[1].0.skip(1)));
    assert(sorted_keys(f));
    lemma_texts_settled(q.werte, 98);
    assert forall|i: int| 0 <= i < f.len() implies settled((#[trigger] f[i]).1, 98) by {}
    lemma_lookup_at(f, 0);
    lemma_lookup_at(f, 1);
    lemma_lookup_at(f, 2);
}

proof fn lemma_quelle_read(q: QuelleView)
    ensures
        settled(quelle_json(q), 99),
        quelle_of_json(quelle_json(q)) == Some(q),
{
    reveal_strlit("art");
    reveal_strlit("id");
    reveal_strlit("pfad");
    reveal_strlit("titel");
    let f = quelle_json(q)->Obj_0;
    assert(f[0].0[0] == 'a' && f[1].0[0] == 'i' && f[2].0[0] == 'p' && f[3].0[0] == 't');
    assert(sorted_keys(f));
    assert forall|i: int| 0 <= i < f.len() implies settled((#[trigger] f[i]).1, 98) by {}
    lemma_lookup_at(f, 0);
    lemma_lookup_at(f, 1);
    lemma_lookup_at(f, 2);
    lemma_lookup_at(f, 3);
}

proof fn lemma_edges_read(m: Seq<(Score, Seq<char>)>, edges: Seq<EdgeView>)
    requires
        weights_kept(m, edges),
    ensures
        settled(edges_json(m, edges), MAX_DEPTH as nat),
        each_read(edges_json(m, edges)->Arr_0, |j: JsonView| edge_of_json(j)) == Some(
            edges.map_values(|e: EdgeView| edge_entry(m, e)),
        ),
{
    let items = edges_json(m, edges)->Arr_0;
    let read = |j: JsonView| edge_of_json(j);
    assert forall|i: int| 0 <= i < items.len() implies settled(#[trigger] items[i], 99) && read(
        items[i],
    ) == Some(edge_entry(m, edges[i])) by {
        assert(items[i] == edge_json(m, edges[i]));
        assert(score_json(m, edges[i].gewicht) is Number);
        lemma_edge_read(m, edges[i]);
    }
    assert(items.map_values(|j: JsonView| read(j)->0) =~= edges.map_values(
        |e: EdgeView| edge_entry(m, e),
    ));
}

proof fn lemma_fragen_read(fragen: Seq<FrageView>)
    ensures
        settled(fragen_json(fragen), MAX_DEPTH as nat),
        each_read(fragen_json(fragen)->Arr_0, |j: JsonView| frage_of_json(j)) == Some(fragen),
{
    let items = fragen_json(fragen)->Arr_0;
    let read = |j: JsonView| frage_of_json(j);
    assert forall|i: int| 0 <= i < items.len() implies settled(#[trigger] items[i], 99) && read(
        items[i],
    ) == Some(fragen[i]) by {
        assert(items[i] == frage_json(fragen[i]));
        lemma_frage_read(fragen[i]);
    }
    assert(items.map_values(|j: JsonView| read(j)->0) =~= fragen);
}

proof fn lemma_quellen_read(quellen: Seq<QuelleView>)
    ensures
        settled(quellen_json(quellen), MAX_DEPTH as nat),
        each_read(quellen_json(quellen)->Arr_0, |j: JsonView| quelle_of_json(j)) == Some(quellen),
{
    let items = quellen_json(quellen)->Arr_0;
    let read = |j: JsonView| quelle_of_json(j);
    assert forall|i: int| 0 <= i < items.len() implies settled(#[trigger] items[i], 99) && read(
        items[i],
    ) == Some(quellen[i]) by {
        assert(items[i] == quelle_json(quellen[i]));
        lemma_quelle_read(quellen[i]);
    }
    assert(items.map_values(|j: JsonView| read(j)->0) =~= quellen);
}

} // verus!
