//! What applying the observer's operations promises, in terms of the operation, the known
//! documents and the graph.

use vstd::prelude::*;

use crate::dispatch::{linked_all, FreshView};
use crate::json::{field, lookup, opt_field, opt_text_json, texts_json, JsonView};
use crate::laws::requests::{
    adds_one_node, bare_texts, corrections_set_what_is_said, is_new, linking_adds_the_edge,
    recording_adds_what_is_said, says, written_texts,
};
use crate::laws::{lemma_lookup_add, lemma_lookup_one};
use crate::observer::apply::{
    applied, applied_once, full_request, known_only, link_json, no_numbers, opt_flag_json,
    opt_texts_json, request_of, update_payload,
};
use crate::observer::contract::{LinkSpecView, OpView, UpdateFieldsView};
use crate::score::Score;
use crate::seqs::lemma_filter_map;
use crate::store::cycles::reaches;
use crate::store::lookup::resolved;
use crate::store::model::{GraphView, NodeType};
use crate::store::ops::polarity_of;
use crate::text::{lowercase, trimmed};

verus! {

/// The texts that are not blank, in their order, trimmed.
pub open spec fn bare_ones(v: Seq<Seq<char>>) -> Seq<Seq<char>> {
    v.filter(|t: Seq<char>| trimmed(t).len() > 0).map_values(|t: Seq<char>| trimmed(t))
}

/// The texts that are not blank, in their order.
pub open spec fn filled_ones(v: Seq<Seq<char>>) -> Seq<Seq<char>> {
    v.filter(|t: Seq<char>| trimmed(t).len() > 0)
}

proof fn lemma_texts_of_array(p: JsonView, key: Seq<char>, v: Seq<Seq<char>>)
    requires
        field(p, key) == Some(texts_json(v)),
    ensures
        bare_texts(p, key) == bare_ones(v),
        written_texts(p, key) == filled_ones(v),
{
    let f = |t: Seq<char>| JsonView::Str(t);
    let full = |t: Seq<char>| trimmed(t).len() > 0;
    let q = |j: JsonView| j is Str && trimmed(j->Str_0).len() > 0;
    lemma_filter_map(v, f, full, q);
    let kept = v.filter(full);
    assert(v.map_values(f).filter(q) == kept.map_values(f));
    assert(kept.map_values(f).map_values(|j: JsonView| trimmed(j->Str_0)) =~= kept.map_values(
        |t: Seq<char>| trimmed(t),
    ));
    assert(kept.map_values(f).map_values(|j: JsonView| j->Str_0) =~= kept);
}

/// The keys of the payloads differ.
proof fn lemma_keys()
    ensures
        "id"@.len() == 2,
        "inhalt"@.len() == 6,
        "begruendung"@.len() == 11,
        "typ"@.len() == 3,
        "tags"@.len() == 4,
        "ueberholt"@.len() == 9,
        "erledigt"@.len() == 8,
        "quellen"@.len() == 7,
        "links"@.len() == 5,
        "als"@[0] == 'a',
        "polaritaet"@[0] == 'p',
        "ziel"@[0] == 'z',
        "von"@[0] == 'v',
        "zu"@[0] == 'z',
{
    reveal_strlit("id");
    reveal_strlit("inhalt");
    reveal_strlit("begruendung");
    reveal_strlit("typ");
    reveal_strlit("tags");
    reveal_strlit("ueberholt");
    reveal_strlit("erledigt");
    reveal_strlit("quellen");
    reveal_strlit("links");
    reveal_strlit("als");
    reveal_strlit("polaritaet");
    reveal_strlit("ziel");
    reveal_strlit("von");
    reveal_strlit("zu");
}

/// What the payload of a correction holds, under each of its keys.
pub open spec fn payload_says(p: JsonView, id: Seq<char>, u: UpdateFieldsView, cited: Option<
    JsonView,
>) -> bool {
    &&& says(p, "id"@, id)
    &&& field(p, "inhalt"@) == opt_text_json(u.inhalt)
    &&& field(p, "begruendung"@) == opt_text_json(u.begruendung)
    &&& field(p, "typ"@) == opt_text_json(u.typ)
    &&& field(p, "tags"@) == opt_texts_json(u.tags)
    &&& field(p, "ueberholt"@) == opt_flag_json(u.ueberholt)
    &&& field(p, "erledigt"@) == opt_flag_json(u.erledigt)
    &&& field(p, "quellen"@) == cited
}

proof fn lemma_payload(id: Seq<char>, u: UpdateFieldsView, known: Seq<Seq<char>>)
    ensures
        payload_says(
            update_payload(id, u, known),
            id,
            u,
            match u.quellen {
                Some(q) => Some(texts_json(known_only(q, known))),
                None => None,
            },
        ),
{
    lemma_keys();
    let q = match u.quellen {
        Some(q) => Some(texts_json(known_only(q, known))),
        None => None,
    };
    let p = update_payload(id, u, known);
    lemma_payload_key(id, u, q, "id"@);
    lemma_payload_key(id, u, q, "inhalt"@);
    lemma_payload_key(id, u, q, "begruendung"@);
    lemma_payload_key(id, u, q, "typ"@);
    lemma_payload_key(id, u, q, "tags"@);
    lemma_payload_key(id, u, q, "ueberholt"@);
    lemma_payload_key(id, u, q, "erledigt"@);
    lemma_payload_key(id, u, q, "quellen"@);
    let fields = payload_fields(id, u, q);
    assert(p == JsonView::Obj(fields));
}

spec fn payload_fields(id: Seq<char>, u: UpdateFieldsView, q: Option<JsonView>) -> Seq<
    (Seq<char>, JsonView),
> {
    seq![("id"@, JsonView::Str(id))] + opt_field("inhalt"@, opt_text_json(u.inhalt)) + opt_field(
        "begruendung"@,
        opt_text_json(u.begruendung),
    ) + opt_field("typ"@, opt_text_json(u.typ)) + opt_field("tags"@, opt_texts_json(u.tags))
        + opt_field("ueberholt"@, opt_flag_json(u.ueberholt)) + opt_field(
        "erledigt"@,
        opt_flag_json(u.erledigt),
    ) + opt_field("quellen"@, q)
}

proof fn lemma_payload_key(
    id: Seq<char>,
    u: UpdateFieldsView,
    q: Option<JsonView>,
    key: Seq<char>,
)
    ensures
        lookup(payload_fields(id, u, q), key) == (if key == "id"@ {
            Some(JsonView::Str(id))
        } else if key == "inhalt"@ {
            opt_text_json(u.inhalt)
        } else if key == "begruendung"@ {
            opt_text_json(u.begruendung)
        } else if key == "typ"@ {
            opt_text_json(u.typ)
        } else if key == "tags"@ {
            opt_texts_json(u.tags)
        } else if key == "ueberholt"@ {
            opt_flag_json(u.ueberholt)
        } else if key == "erledigt"@ {
            opt_flag_json(u.erledigt)
        } else if key == "quellen"@ {
            q
        } else {
            None
        }),
{
    lemma_keys();
    let f0 = seq![("id"@, JsonView::Str(id))];
    let f1 = opt_field("inhalt"@, opt_text_json(u.inhalt));
    let f2 = opt_field("begruendung"@, opt_text_json(u.begruendung));
    let f3 = opt_field("typ"@, opt_text_json(u.typ));
    let f4 = opt_field("tags"@, opt_texts_json(u.tags));
    let f5 = opt_field("ueberholt"@, opt_flag_json(u.ueberholt));
    let f6 = opt_field("erledigt"@, opt_flag_json(u.erledigt));
    let f7 = opt_field("quellen"@, q);
    lemma_lookup_add(f0 + f1 + f2 + f3 + f4 + f5 + f6, f7, key);
    lemma_lookup_add(f0 + f1 + f2 + f3 + f4 + f5, f6, key);
    lemma_lookup_add(f0 + f1 + f2 + f3 + f4, f5, key);
    lemma_lookup_add(f0 + f1 + f2 + f3, f4, key);
    lemma_lookup_add(f0 + f1 + f2, f3, key);
    lemma_lookup_add(f0 + f1, f2, key);
    lemma_lookup_add(f0, f1, key);
    lemma_lookup_one("id"@, Some(JsonView::Str(id)), key);
    lemma_lookup_one("inhalt"@, opt_text_json(u.inhalt), key);
    lemma_lookup_one("begruendung"@, opt_text_json(u.begruendung), key);
    lemma_lookup_one("typ"@, opt_text_json(u.typ), key);
    lemma_lookup_one("tags"@, opt_texts_json(u.tags), key);
    lemma_lookup_one("ueberholt"@, opt_flag_json(u.ueberholt), key);
    lemma_lookup_one("erledigt"@, opt_flag_json(u.erledigt), key);
    lemma_lookup_one("quellen"@, q, key);
}

/// A correction of the observer sets each field that it gives, in the node that it names,
/// and leaves every other field and node as it is. Sources count as far as they are known.
pub proof fn the_observer_corrects_what_it_gives(
    g: GraphView,
    id: Seq<char>,
    u: UpdateFieldsView,
    known: Seq<Seq<char>>,
    project_dir: Seq<char>,
    session: Seq<char>,
    f: FreshView,
    i: int,
)
    requires
        trimmed(id).len() > 0,
        0 <= i < g.nodes.len(),
        g.nodes[i].id == id,
        forall|k: int| 0 <= k < i ==> (#[trigger] g.nodes[k]).id != id,
        u.typ matches Some(t) ==> NodeType::of_code(lowercase(trimmed(t))) is Some,
    ensures
        ({
            let r = applied_once(
                g,
                OpView::Update { id, fields: u },
                known,
                project_dir,
                session,
                true,
                f,
            );
            let a = g.nodes[i];
            let b = r.0.nodes[i];
            &&& r.1
            &&& r.0.nodes.len() == g.nodes.len()
            &&& forall|k: int|
                0 <= k < g.nodes.len() && k != i ==> #[trigger] r.0.nodes[k] == g.nodes[k]
            &&& r.0.edges == g.edges && r.0.fragen == g.fragen && r.0.quellen == g.quellen
            &&& b.inhalt == u.inhalt.unwrap_or(a.inhalt)
            &&& u.begruendung is Some && trimmed(u.begruendung->0).len() > 0 ==> b.begruendung
                == u.begruendung->0
            &&& u.begruendung is None || trimmed(u.begruendung->0).len() == 0 ==> b.begruendung
                == a.begruendung
            &&& u.typ matches Some(t) ==> Some(b.typ) == NodeType::of_code(lowercase(trimmed(t)))
            &&& u.typ is None ==> b.typ == a.typ
            &&& u.tags is Some && bare_ones(u.tags->0).len() > 0 ==> b.tags == bare_ones(u.tags->0)
            &&& u.tags is None || bare_ones(u.tags->0).len() == 0 ==> b.tags == a.tags
            &&& u.quellen matches Some(q) ==> b.quelle_ids == bare_ones(
                q.filter(|x: Seq<char>| known.contains(x)),
            )
            &&& u.quellen is None ==> b.quelle_ids == a.quelle_ids
            &&& b.ueberholt == u.ueberholt.unwrap_or(a.ueberholt)
            &&& b.erledigt == u.erledigt.unwrap_or(a.erledigt)
            &&& b.id == a.id && b.datum == a.datum && b.basis_score == a.basis_score && b.score
                == a.score && b.status == a.status && b.herkunft == a.herkunft && b.frage_id
                == a.frage_id && b.wert == a.wert && b.session_id == a.session_id
        }),
{
    lemma_payload(id, u, known);
    let p = update_payload(id, u, known);
    let r = full_request(("update"@, p), project_dir, session);
    assert forall|c: Seq<char>| #[trigger] says(p, "typ"@, c) implies NodeType::of_code(
        lowercase(trimmed(c)),
    ) is Some by {
        assert(u.typ == Some(c));
    }
    corrections_set_what_is_said(r, no_numbers(), g, Seq::empty(), f, id, i);
    if let Some(l) = u.tags {
        lemma_texts_of_array(p, "tags"@, l);
    }
    if let Some(q) = u.quellen {
        lemma_texts_of_array(p, "quellen"@, known_only(q, known));
    }
}

/// What the payload of an addition holds.
proof fn lemma_addition(
    typ: Seq<char>,
    inhalt: Seq<char>,
    begruendung: Seq<char>,
    tags: Seq<Seq<char>>,
    links: Seq<LinkSpecView>,
    cited: Option<JsonView>,
)
    ensures
        ({
            let p = JsonView::Obj(
                seq![
                    ("typ"@, JsonView::Str(typ)),
                    ("inhalt"@, JsonView::Str(inhalt)),
                    ("begruendung"@, JsonView::Str(begruendung)),
                    ("tags"@, texts_json(tags)),
                    (
                        "links"@,
                        JsonView::Arr(links.map_values(|l: LinkSpecView| link_json(l))),
                    ),
                ] + opt_field("quellen"@, cited),
            );
            &&& says(p, "typ"@, typ)
            &&& says(p, "inhalt"@, inhalt)
            &&& says(p, "begruendung"@, begruendung)
            &&& field(p, "tags"@) == Some(texts_json(tags))
            &&& field(p, "links"@) == Some(
                JsonView::Arr(links.map_values(|l: LinkSpecView| link_json(l))),
            )
            &&& field(p, "quellen"@) == cited
        }),
{
    lemma_keys();
    let a = JsonView::Arr(links.map_values(|l: LinkSpecView| link_json(l)));
    let f = seq![
        ("typ"@, JsonView::Str(typ)),
        ("inhalt"@, JsonView::Str(inhalt)),
        ("begruendung"@, JsonView::Str(begruendung)),
        ("tags"@, texts_json(tags)),
        ("links"@, a),
    ];
    let q = opt_field("quellen"@, cited);
    reveal_with_fuel(lookup, 6);
    assert(f.skip(1)[0] == f[1] && f.skip(1).skip(1)[0] == f[2] && f.skip(1).skip(1).skip(1)[0]
        == f[3] && f.skip(1).skip(1).skip(1).skip(1)[0] == f[4]);
    assert(f.skip(1).skip(1).skip(1).skip(1).skip(1).len() == 0);
    lemma_lookup_add(f, q, "typ"@);
    lemma_lookup_add(f, q, "inhalt"@);
    lemma_lookup_add(f, q, "begruendung"@);
    lemma_lookup_add(f, q, "tags"@);
    lemma_lookup_add(f, q, "links"@);
    lemma_lookup_add(f, q, "quellen"@);
    lemma_lookup_one("quellen"@, cited, "quellen"@);
}

/// The JSON of a link says where it leads, with which polarity and as what.
pub proof fn links_say_what_is_meant(l: LinkSpecView)
    ensures
        says(link_json(l), "ziel"@, l.ziel),
        says(link_json(l), "polaritaet"@, l.polaritaet),
        says(link_json(l), "als"@, l.als),
{
    lemma_keys();
    let f = link_json(l)->Obj_0;
    reveal_with_fuel(lookup, 4);
    assert(f.skip(1)[0] == f[1] && f.skip(1).skip(1)[0] == f[2]);
}

/// An addition of the observer with a reason records one node: what it says, with its tags
/// and the sources that are known, from the session that is observed. Its links are worked
/// as the payload's own.
pub proof fn the_observer_adds_what_it_says(
    g: GraphView,
    code: Seq<char>,
    typ: NodeType,
    inhalt: Seq<char>,
    why: Seq<char>,
    tags: Seq<Seq<char>>,
    links: Seq<LinkSpecView>,
    quellen: Seq<Seq<char>>,
    known: Seq<Seq<char>>,
    project_dir: Seq<char>,
    session: Seq<char>,
    f: FreshView,
)
    requires
        NodeType::of_code(lowercase(trimmed(code))) == Some(typ),
        trimmed(why).len() > 0,
        is_new(g, typ, inhalt),
        !g.has_node(f.node_id),
    ensures
        ({
            let op = OpView::Add { typ: code, inhalt, begruendung: why, tags, links, quellen };
            let r = applied_once(g, op, known, project_dir, session, true, f);
            let n = r.0.nodes.last();
            &&& r.1
            &&& adds_one_node(g, r.0)
            &&& n.id == f.node_id && n.typ == typ && n.inhalt == inhalt && n.begruendung == why
                && n.datum == f.datum && n.basis_score == typ.basis()
            &&& n.tags == bare_ones(tags)
            &&& n.quelle_ids == filled_ones(quellen.filter(|x: Seq<char>| known.contains(x)))
            &&& trimmed(session).len() > 0 ==> n.session_id == Some(trimmed(session))
            &&& n.herkunft == "session"@ && n.frage_id is None && n.wert is None && !n.ueberholt
                && !n.erledigt
            &&& r.0.fragen == g.fragen && r.0.quellen == g.quellen
            &&& r.0.edges.len() >= g.edges.len()
            &&& r.0.edges.take(g.edges.len() as int) == g.edges
            &&& r.0 == linked_all(
                GraphView { nodes: r.0.nodes, ..g },
                f.node_id,
                f.edge_ids,
                links.map_values(|l: LinkSpecView| link_json(l)),
                links.len() as int,
            ).0
        }),
{
    let op = OpView::Add { typ: code, inhalt, begruendung: why, tags, links, quellen };
    let cited = known_only(quellen, known);
    let q = if cited.len() > 0 {
        Some(texts_json(cited))
    } else {
        None
    };
    lemma_addition(code, inhalt, why, tags, links, q);
    let p = (request_of(op, known)->0).1;
    let r = full_request(("record"@, p), project_dir, session);
    recording_adds_what_is_said(r, no_numbers(), g, Seq::empty(), f, code, typ, inhalt, why);
    lemma_texts_of_array(p, "tags"@, tags);
    if cited.len() > 0 {
        lemma_texts_of_array(p, "quellen"@, cited);
    } else {
        reveal(Seq::filter);
        assert(cited =~= Seq::empty());
        assert(filled_ones(cited) =~= Seq::empty());
        assert(written_texts(p, "quellen"@) =~= Seq::empty());
    }
}

/// An addition without a reason, and nothing to do, change nothing.
pub proof fn the_observer_adds_nothing_without_a_reason(
    g: GraphView,
    op: OpView,
    known: Seq<Seq<char>>,
    project_dir: Seq<char>,
    session: Seq<char>,
    enabled: bool,
    f: FreshView,
)
    requires
        op is Noop || (op is Add && trimmed(op->begruendung).len() == 0),
    ensures
        applied_once(g, op, known, project_dir, session, enabled, f) == (g, false),
{
}

/// A link of the observer adds the edge that it says, or nothing.
pub proof fn the_observer_links_what_it_names(
    g: GraphView,
    von: Seq<char>,
    zu: Seq<char>,
    pol: Seq<char>,
    known: Seq<Seq<char>>,
    project_dir: Seq<char>,
    session: Seq<char>,
    f: FreshView,
    a: Seq<char>,
    b: Seq<char>,
)
    requires
        resolved(g, von) == Ok::<Seq<char>, Seq<char>>(a),
        resolved(g, zu) == Ok::<Seq<char>, Seq<char>>(b),
    ensures
        ({
            let op = OpView::Link { von, zu, polaritaet: pol };
            let r = applied_once(g, op, known, project_dir, session, true, f);
            let fits = g.has_node(a) && g.has_node(b) && !reaches(g.edges, b, a) && polarity_of(
                lowercase(trimmed(pol)),
            ) is Some;
            &&& !fits ==> r == (g, false)
            &&& fits ==> {
                let e = r.0.edges.last();
                &&& r.1
                &&& r.0.nodes == g.nodes
                &&& r.0.edges.drop_last() == g.edges && r.0.edges.len() == g.edges.len() + 1
                &&& e.von == a && e.zu == b
                &&& e.polaritaet == polarity_of(lowercase(trimmed(pol)))->0
                &&& e.gewicht == (Score { bits: 0x3ff0_0000_0000_0000 })
            }
        }),
{
    lemma_keys();
    let op = OpView::Link { von, zu, polaritaet: pol };
    let p = (request_of(op, known)->0).1;
    let fields = p->Obj_0;
    reveal_strlit("von");
    reveal_strlit("zu");
    reveal_with_fuel(lookup, 4);
    assert(fields.skip(1)[0] == fields[1] && fields.skip(1).skip(1)[0] == fields[2]);
    assert(says(p, "von"@, von));
    assert(says(p, "zu"@, zu));
    assert(says(p, "polaritaet"@, pol));
    let r = full_request(("link"@, p), project_dir, session);
    linking_adds_the_edge(r, no_numbers(), g, Seq::empty(), f, von, zu, pol, a, b);
}

/// The operations are applied one after the other, and those that change something counted.
pub proof fn operations_are_applied_in_turn(
    g: GraphView,
    ops: Seq<OpView>,
    known: Seq<Seq<char>>,
    project_dir: Seq<char>,
    session: Seq<char>,
    enabled: bool,
    fresh: Seq<FreshView>,
    n: int,
)
    requires
        0 <= n < ops.len(),
    ensures
        ({
            let before = applied(g, ops, known, project_dir, session, enabled, fresh, n);
            let after = applied(g, ops, known, project_dir, session, enabled, fresh, n + 1);
            let step = applied_once(
                before.0,
                ops[n],
                known,
                project_dir,
                session,
                enabled,
                fresh[n],
            );
            &&& after.0 == step.0
            &&& step.1 ==> after.1 == before.1 + 1
            &&& !step.1 ==> after.1 == before.1
        }),
        applied(g, ops, known, project_dir, session, enabled, fresh, 0) == (g, 0nat),
{
}

} // verus!
