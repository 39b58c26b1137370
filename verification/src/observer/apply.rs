//! Applying what the observer extracted. Every operation becomes a request to the store,
//! so that it meets the same gates as any other; a malformed one is skipped.

use vstd::prelude::*;

use crate::dispatch::{
    dispatch_with, dispatched, done_with, is_fresh, make_fresh, Done, Fresh, FreshView, Numbers,
};
use crate::ipc::{IpcRequest, RequestView};
use crate::json::{
    field_views, item_views, json_texts, opt_field, opt_str, opt_text_json, push_field, push_opt,
    texts_json, Json, JsonView,
};
use crate::observer::contract::{
    ExtractionResult, LinkSpec, LinkSpecView, Op, OpView, UpdateFields, UpdateFieldsView,
};
use crate::store::model::{quelle_views, GraphView, KnowledgeGraph, Quelle};
use crate::text;
use crate::text::{texts, trimmed};

verus! {

broadcast use {crate::json::lemma_array_view, crate::json::lemma_object_view};

// ---- known documents ----

/// The ids that belong to known documents.
pub open spec fn known_only(ids: Seq<Seq<char>>, known: Seq<Seq<char>>) -> Seq<Seq<char>> {
    ids.filter(|id: Seq<char>| known.contains(id))
}

/// Keeps the ids that belong to known documents, in order.
pub fn filter_known(ids: &Vec<String>, known: &Vec<String>) -> (r: Vec<String>)
    ensures
        texts(r@) == known_only(texts(ids@), texts(known@)),
{
    let ghost all = texts(ids@);
    let ghost p = |id: Seq<char>| texts(known@).contains(id);
    let mut out: Vec<String> = Vec::new();
    let mut i: usize = 0;
    proof {
        reveal(Seq::filter);
        assert(texts(out@) =~= all.take(0).filter(p));
    }
    while i < ids.len()
        invariant
            all == texts(ids@),
            p == (|id: Seq<char>| texts(known@).contains(id)),
            i <= ids.len(),
            texts(out@) == all.take(i as int).filter(p),
        decreases ids.len() - i,
    {
        assert(all[i as int] == ids@[i as int]@);
        proof {
            crate::seqs::lemma_filter_take(all, i as int, p);
        }
        if text::one_of(&ids[i], known) {
            let ghost before = out@;
            out.push(ids[i].clone());
            assert(texts(out@) =~= texts(before).push(all[i as int]));
        }
        i += 1;
    }
    assert(all.take(all.len() as int) =~= all);
    out
}

// ---- operations as requests ----

/// A link as it stands in a payload.
pub open spec fn link_json(l: LinkSpecView) -> JsonView {
    JsonView::Obj(
        seq![
            ("als"@, JsonView::Str(l.als)),
            ("polaritaet"@, JsonView::Str(l.polaritaet)),
            ("ziel"@, JsonView::Str(l.ziel)),
        ],
    )
}

/// A flag, where there is one.
pub open spec fn opt_flag_json(o: Option<bool>) -> Option<JsonView> {
    match o {
        Some(b) => Some(JsonView::Bool(b)),
        None => None,
    }
}

/// A list of texts, where there is one.
pub open spec fn opt_texts_json(o: Option<Seq<Seq<char>>>) -> Option<JsonView> {
    match o {
        Some(v) => Some(texts_json(v)),
        None => None,
    }
}

/// The payload of a correction: only the fields that are set.
pub open spec fn update_payload(
    id: Seq<char>,
    f: UpdateFieldsView,
    known: Seq<Seq<char>>,
) -> JsonView {
    JsonView::Obj(
        seq![("id"@, JsonView::Str(id))] + opt_field("inhalt"@, opt_text_json(f.inhalt))
            + opt_field("begruendung"@, opt_text_json(f.begruendung)) + opt_field(
            "typ"@,
            opt_text_json(f.typ),
        ) + opt_field("tags"@, opt_texts_json(f.tags)) + opt_field(
            "ueberholt"@,
            opt_flag_json(f.ueberholt),
        ) + opt_field("erledigt"@, opt_flag_json(f.erledigt)) + opt_field(
            "quellen"@,
            match f.quellen {
                Some(q) => Some(texts_json(known_only(q, known))),
                None => None,
            },
        ),
    )
}

/// The request that an operation becomes: its name and its payload. Nothing to do, and an
/// addition without a reason, become none. Only known documents are cited.
pub open spec fn request_of(op: OpView, known: Seq<Seq<char>>) -> Option<(Seq<char>, JsonView)> {
    match op {
        OpView::Noop => None,
        OpView::Add { typ, inhalt, begruendung, tags, links, quellen } => if trimmed(
            begruendung,
        ).len() == 0 {
            None
        } else {
            let cited = known_only(quellen, known);
            Some(
                (
                    "record"@,
                    JsonView::Obj(
                        seq![
                            ("typ"@, JsonView::Str(typ)),
                            ("inhalt"@, JsonView::Str(inhalt)),
                            ("begruendung"@, JsonView::Str(begruendung)),
                            ("tags"@, texts_json(tags)),
                            (
                                "links"@,
                                JsonView::Arr(links.map_values(|l: LinkSpecView| link_json(l))),
                            ),
                        ] + opt_field(
                            "quellen"@,
                            if cited.len() > 0 {
                                Some(texts_json(cited))
                            } else {
                                None
                            },
                        ),
                    ),
                ),
            )
        },
        OpView::Update { id, fields } => Some(("update"@, update_payload(id, fields, known))),
        OpView::Link { von, zu, polaritaet } => Some(
            (
                "link"@,
                JsonView::Obj(
                    seq![
                        ("von"@, JsonView::Str(von)),
                        ("zu"@, JsonView::Str(zu)),
                        ("polaritaet"@, JsonView::Str(polaritaet)),
                    ],
                ),
            ),
        ),
    }
}

/// The request of an operation as the store gets it.
pub open spec fn full_request(
    r: (Seq<char>, JsonView),
    project_dir: Seq<char>,
    session: Seq<char>,
) -> RequestView {
    RequestView { token: Seq::empty(), project_dir, op: r.0, payload: r.1, session_id: session }
}

fn json_link(l: &LinkSpec) -> (r: Json)
    ensures
        r@ == link_json(l@),
{
    let mut f: Vec<(String, Json)> = Vec::new();
    push_field(&mut f, "als", Json::Str(l.als.clone()));
    push_field(&mut f, "polaritaet", Json::Str(l.polaritaet.clone()));
    push_field(&mut f, "ziel", Json::Str(l.ziel.clone()));
    assert(field_views(f@) =~= link_json(l@)->Obj_0);
    Json::Obj(f)
}

fn json_links(v: &Vec<LinkSpec>) -> (r: Json)
    ensures
        r@ == JsonView::Arr(
            v@.map_values(|l: LinkSpec| l@).map_values(|l: LinkSpecView| link_json(l)),
        ),
{
    let mut out: Vec<Json> = Vec::new();
    let mut i: usize = 0;
    while i < v.len()
        invariant
            i <= v.len(),
            out.len() == i,
            forall|k: int| 0 <= k < i ==> (#[trigger] out@[k])@ == link_json(v@[k]@),
        decreases v.len() - i,
    {
        out.push(json_link(&v[i]));
        i += 1;
    }
    assert(item_views(out@) =~= v@.map_values(|l: LinkSpec| l@).map_values(
        |l: LinkSpecView| link_json(l),
    ));
    Json::Arr(out)
}

fn opt_flag(o: Option<bool>) -> (r: Option<Json>)
    ensures
        opt_flag_json(o) == (match r {
            Some(j) => Some(j@),
            None => None,
        }),
{
    match o {
        Some(b) => Some(Json::Bool(b)),
        None => None,
    }
}

fn update_json(id: &String, fields: &UpdateFields, known: &Vec<String>) -> (r: Json)
    ensures
        r@ == update_payload(id@, fields@, texts(known@)),
{
    let mut f: Vec<(String, Json)> = Vec::new();
    push_field(&mut f, "id", Json::Str(id.clone()));
    assert(field_views(f@) =~= seq![("id"@, JsonView::Str(id@))]);
    push_opt(&mut f, "inhalt", opt_str(&fields.inhalt));
    push_opt(&mut f, "begruendung", opt_str(&fields.begruendung));
    push_opt(&mut f, "typ", opt_str(&fields.typ));
    let tags: Option<Json> = match &fields.tags {
        Some(t) => Some(json_texts(t)),
        None => None,
    };
    push_opt(&mut f, "tags", tags);
    push_opt(&mut f, "ueberholt", opt_flag(fields.ueberholt));
    push_opt(&mut f, "erledigt", opt_flag(fields.erledigt));
    let quellen: Option<Json> = match &fields.quellen {
        Some(q) => Some(json_texts(&filter_known(q, known))),
        None => None,
    };
    push_opt(&mut f, "quellen", quellen);
    Json::Obj(f)
}

/// The request that an operation becomes, if any.
pub fn make_request(op: &Op, known: &Vec<String>) -> (r: Option<(String, Json)>)
    ensures
        match r {
            Some(p) => request_of(op@, texts(known@)) == Some((p.0@, p.1@)),
            None => request_of(op@, texts(known@)) is None,
        },
{
    match op {
        Op::Noop => None,
        Op::Add { typ, inhalt, begruendung, tags, links, quellen } => {
            if text::is_blank(begruendung) {
                return None;
            }
            let mut f: Vec<(String, Json)> = Vec::new();
            push_field(&mut f, "typ", Json::Str(typ.clone()));
            push_field(&mut f, "inhalt", Json::Str(inhalt.clone()));
            push_field(&mut f, "begruendung", Json::Str(begruendung.clone()));
            push_field(&mut f, "tags", json_texts(tags));
            push_field(&mut f, "links", json_links(links));
            let ghost fixed = field_views(f@);
            assert(fixed =~= seq![
                ("typ"@, JsonView::Str(typ@)),
                ("inhalt"@, JsonView::Str(inhalt@)),
                ("begruendung"@, JsonView::Str(begruendung@)),
                ("tags"@, texts_json(texts(tags@))),
                (
                    "links"@,
                    JsonView::Arr(
                        links@.map_values(|l: LinkSpec| l@).map_values(
                            |l: LinkSpecView| link_json(l),
                        ),
                    ),
                ),
            ]);
            let cited: Vec<String> = filter_known(quellen, known);
            assert(texts(cited@).len() == cited@.len());
            let cited: Option<Json> = if cited.len() > 0 {
                Some(json_texts(&cited))
            } else {
                None
            };
            push_opt(&mut f, "quellen", cited);
            Some(("record".to_owned(), Json::Obj(f)))
        },
        Op::Update { id, fields } => Some(
            ("update".to_owned(), update_json(id, fields, known)),
        ),
        Op::Link { von, zu, polaritaet } => {
            let mut f: Vec<(String, Json)> = Vec::new();
            push_field(&mut f, "von", Json::Str(von.clone()));
            push_field(&mut f, "zu", Json::Str(zu.clone()));
            push_field(&mut f, "polaritaet", Json::Str(polaritaet.clone()));
            assert(field_views(f@) =~= seq![
                ("von"@, JsonView::Str(von@)),
                ("zu"@, JsonView::Str(zu@)),
                ("polaritaet"@, JsonView::Str(polaritaet@)),
            ]);
            Some(("link".to_owned(), Json::Obj(f)))
        },
    }
}

// ---- applying ----

/// The numbers of an operation: it brings none.
pub open spec fn no_numbers() -> Numbers {
    Numbers { basis_score: None, gewicht: None }
}

/// The graph after one operation, and whether it changed.
pub open spec fn applied_once(
    g: GraphView,
    op: OpView,
    known: Seq<Seq<char>>,
    project_dir: Seq<char>,
    session: Seq<char>,
    enabled: bool,
    f: FreshView,
) -> (GraphView, bool) {
    match request_of(op, known) {
        None => (g, false),
        Some(r) => {
            let d = dispatched(
                full_request(r, project_dir, session),
                enabled,
                no_numbers(),
                g,
                Seq::empty(),
                f,
            );
            (d.graph, d.changed)
        },
    }
}

/// The graph after the first `n` operations, and how many of them changed it.
pub open spec fn applied(
    g: GraphView,
    ops: Seq<OpView>,
    known: Seq<Seq<char>>,
    project_dir: Seq<char>,
    session: Seq<char>,
    enabled: bool,
    fresh: Seq<FreshView>,
    n: int,
) -> (GraphView, nat)
    decreases n,
{
    if n <= 0 {
        (g, 0)
    } else {
        let before = applied(g, ops, known, project_dir, session, enabled, fresh, n - 1);
        let step = applied_once(
            before.0,
            ops[n - 1],
            known,
            project_dir,
            session,
            enabled,
            fresh[n - 1],
        );
        (
            step.0,
            before.1 + (if step.1 {
                1nat
            } else {
                0nat
            }),
        )
    }
}

/// Applies one operation. Gives whether the graph changed, and the fresh things it used.
fn apply_once(
    graph: &mut KnowledgeGraph,
    op: &Op,
    known: &Vec<String>,
    project_dir: &str,
    session_id: &str,
    enabled: bool,
) -> (r: (bool, Ghost<FreshView>))
    ensures
        (final(graph)@, r.0) == applied_once(
            old(graph)@,
            op@,
            texts(known@),
            project_dir@,
            session_id@,
            enabled,
            r.1@,
        ),
        request_of(op@, texts(known@)) matches Some(q) ==> is_fresh(r.1@, q.1),
{
    match make_request(op, known) {
        None => {
            let ghost any = FreshView {
                node_id: Seq::empty(),
                frage_id: Seq::empty(),
                datum: Seq::empty(),
                edge_ids: Seq::empty(),
            };
            (false, Ghost(any))
        },
        Some(q) => {
            let (name, payload) = q;
            let req = IpcRequest {
                token: String::new(),
                project_dir: project_dir.to_owned(),
                op: name,
                payload,
                session_id: session_id.to_owned(),
            };
            let fresh: Fresh = make_fresh(&req.payload);
            let ghost f = fresh@;
            let none: Vec<Quelle> = Vec::new();
            assert(quelle_views(none@) =~= Seq::empty());
            assert(req@ =~= full_request(
                request_of(op@, texts(known@))->0,
                project_dir@,
                session_id@,
            ));
            let d: Done = dispatch_with(
                &req,
                enabled,
                Numbers { basis_score: None, gewicht: None },
                graph,
                none,
                fresh,
            );
            assert(done_with(graph@, d).graph == graph@);
            (d.changed, Ghost(f))
        },
    }
}

/// The fresh things fit the operations that they are for.
pub open spec fn fits(ops: Seq<OpView>, known: Seq<Seq<char>>, fresh: Seq<FreshView>) -> bool {
    &&& fresh.len() == ops.len()
    &&& forall|i: int|
        0 <= i < ops.len() ==> (request_of(#[trigger] ops[i], known) matches Some(q) ==> is_fresh(
            fresh[i],
            q.1,
        ))
}

/// Applies the operations of an answer in order, and counts those that changed the
/// graph.
pub fn apply_ops_store(
    graph: &mut KnowledgeGraph,
    project_dir: &str,
    session_id: &str,
    enabled: bool,
    known: &Vec<String>,
    result: &ExtractionResult,
) -> (mutated: usize)
    ensures
        exists|fresh: Seq<FreshView>|
            #[trigger] fits(result@.ops, texts(known@), fresh) && (final(graph)@, mutated as nat)
                == applied(
                old(graph)@,
                result@.ops,
                texts(known@),
                project_dir@,
                session_id@,
                enabled,
                fresh,
                result@.ops.len() as int,
            ),
{
    let ghost start = graph@;
    let ghost ops = result@.ops;
    let ghost names = texts(known@);
    let ghost mut fresh: Seq<FreshView> = Seq::empty();
    let mut mutated: usize = 0;
    let mut i: usize = 0;
    while i < result.ops.len()
        invariant
            ops == result.ops@.map_values(|o: Op| o@),
            names == texts(known@),
            i <= result.ops.len(),
            mutated <= i,
            fresh.len() == i,
            forall|k: int|
                0 <= k < i ==> (request_of(#[trigger] ops[k], names) matches Some(q) ==> is_fresh(
                    fresh[k],
                    q.1,
                )),
            (graph@, mutated as nat) == applied(
                start,
                ops,
                names,
                project_dir@,
                session_id@,
                enabled,
                fresh,
                i as int,
            ),
        decreases result.ops.len() - i,
    {
        assert(ops[i as int] == result.ops@[i as int]@);
        let ghost before = graph@;
        let (changed, f) = apply_once(
            graph,
            &result.ops[i],
            known,
            project_dir,
            session_id,
            enabled,
        );
        proof {
            let longer = fresh.push(f@);
            lemma_applied_prefix(
                start,
                ops,
                names,
                project_dir@,
                session_id@,
                enabled,
                fresh,
                longer,
                i as int,
            );
            fresh = longer;
        }
        if changed {
            mutated += 1;
        }
        i += 1;
    }
    assert(fits(ops, names, fresh));
    mutated
}

/// What the first `n` operations do depends on their own fresh things alone.
proof fn lemma_applied_prefix(
    g: GraphView,
    ops: Seq<OpView>,
    known: Seq<Seq<char>>,
    project_dir: Seq<char>,
    session: Seq<char>,
    enabled: bool,
    a: Seq<FreshView>,
    b: Seq<FreshView>,
    n: int,
)
    requires
        n <= a.len(),
        n <= b.len(),
        forall|k: int| 0 <= k < n ==> a[k] == b[k],
    ensures
        applied(g, ops, known, project_dir, session, enabled, a, n) == applied(
            g,
            ops,
            known,
            project_dir,
            session,
            enabled,
            b,
            n,
        ),
    decreases n,
{
    if n > 0 {
        lemma_applied_prefix(g, ops, known, project_dir, session, enabled, a, b, n - 1);
    }
}

} // verus!
