//! What is promised of the files of a store and of the settings: how documents are
//! described, how nodes, edges and questions are spelled, and what a setting means.

use vstd::prelude::*;

use crate::config::{
    default_config, env_layer, env_number, file_layer, flag_word, layer_of, names_of, nothing_set,
    unsigned, EnvLayer,
};
use crate::json::{
    escaped, escaped_char, field, flag_field, json_of_text, natural, natural_field, quoted,
    quoted_list, text_field, text_list, text_of_json, texts_of_json, JsonView,
};
use crate::record::{
    key_scan, member, opt_flag_member, opt_natural_member, opt_text_member, repeats, repeats_any,
    texts_or_none, times,
};
use crate::store::documents::{
    art_of, by_path, document, first_heading, heading, internal_dirs, slashed, without_hashes,
};
use crate::store::layout::{in_order, is_wanted};
use crate::store::lists::{
    edge_of_json, edges_of_text, frage_of_json, fragen_of_text, quelle_of_json, quellen_of_text,
};
use crate::store::model::{GraphView, NodeType, NodeView, QuelleView};
use crate::store::node_md::{
    body_parts, head_and_body, head_entries, head_flag, head_list, head_string, head_text,
    head_value, node_of_parts, node_of_text, node_text, separator, Entry,
};
use crate::text::{decimal, joined, less, lines, lowercase, trimmed};

verus! {

// ---- documents ----

/// The folders in which the tools keep their own files hold no documents; all others may.
pub proof fn internal_folders_hold_no_documents(folder: Seq<char>)
    ensures
        internal_dirs().contains(folder) <==> folder == "sessions"@ || folder == "knowledge"@
            || folder == "session-types"@ || folder == "tasks"@ || folder == "agent-teams"@
            || folder == "build"@ || folder == "rewind"@,
{
    let d = internal_dirs();
    assert(d[0] == "sessions"@ && d[1] == "knowledge"@ && d[2] == "session-types"@ && d[3]
        == "tasks"@ && d[4] == "agent-teams"@ && d[5] == "build"@ && d[6] == "rewind"@);
    if d.contains(folder) {
        let i = choose|i: int| 0 <= i < d.len() && d[i] == folder;
        assert(0 <= i < 7);
    }
}

/// A document is of the kind that its folder names, in the singular and in short; of a
/// folder that names none it has the folder's name.
pub proof fn folders_name_kinds(folder: Seq<char>)
    ensures
        art_of("features"@) == "feature"@ && art_of("feature"@) == "feature"@,
        art_of("adr"@) == "adr"@ && art_of("adrs"@) == "adr"@ && art_of("decisions"@) == "adr"@,
        art_of("specs"@) == "spec"@ && art_of("spec"@) == "spec"@,
        art_of("notes"@) == "note"@ && art_of("note"@) == "note"@,
        art_of("docs"@) == "doc"@ && art_of("doc"@) == "doc"@ && art_of("documentation"@)
            == "doc"@,
        folder != "features"@ && folder != "feature"@ && folder != "adr"@ && folder != "adrs"@
            && folder != "decisions"@ && folder != "specs"@ && folder != "spec"@ && folder
            != "notes"@ && folder != "note"@ && folder != "docs"@ && folder != "doc"@ && folder
            != "documentation"@ ==> art_of(folder) == folder,
{
    reveal_strlit("features");
    reveal_strlit("feature");
    reveal_strlit("adr");
    reveal_strlit("adrs");
    reveal_strlit("decisions");
    reveal_strlit("specs");
    reveal_strlit("spec");
    reveal_strlit("notes");
    reveal_strlit("note");
    reveal_strlit("docs");
    reveal_strlit("doc");
    reveal_strlit("documentation");
    assert("features"@[0] == 'f' && "feature"@[0] == 'f' && "adr"@[0] == 'a' && "adrs"@[0] == 'a');
    assert("decisions"@[0] == 'd' && "decisions"@[1] == 'e' && "specs"@[0] == 's' && "spec"@[0]
        == 's' && "notes"@[0] == 'n' && "note"@[0] == 'n');
    assert("docs"@[0] == 'd' && "docs"@[1] == 'o' && "doc"@[0] == 'd' && "doc"@[1] == 'o'
        && "documentation"@[0] == 'd' && "documentation"@[1] == 'o');
}

proof fn lemma_hashes(k: nat, rest: Seq<char>)
    requires
        rest.len() > 0 ==> rest[0] != '#',
    ensures
        without_hashes(Seq::new(k, |i: int| '#') + rest) == rest,
    decreases k,
{
    let s = Seq::new(k, |i: int| '#') + rest;
    if k > 0 {
        assert(s[0] == '#');
        assert(s.skip(1) =~= Seq::new((k - 1) as nat, |i: int| '#') + rest);
        lemma_hashes((k - 1) as nat, rest);
    } else {
        assert(s =~= rest);
    }
}

/// A heading is a line of hashes and words, white space around both aside; it gives its
/// first hundred and twenty characters. A line that begins otherwise is none.
pub proof fn headings_begin_with_hashes(line: Seq<char>, k: nat, rest: Seq<char>)
    requires
        trimmed(line) == Seq::new(k, |i: int| '#') + rest,
        rest.len() > 0 ==> rest[0] != '#',
    ensures
        k == 0 ==> heading(line) is None,
        k > 0 && trimmed(rest).len() == 0 ==> heading(line) is None,
        k > 0 && 0 < trimmed(rest).len() <= 120 ==> heading(line) == Some(trimmed(rest)),
        k > 0 && trimmed(rest).len() > 120 ==> heading(line) == Some(trimmed(rest).take(120)),
{
    let t = trimmed(line);
    lemma_hashes(k, rest);
    if k == 0 {
        assert(t =~= rest);
    } else {
        assert(t[0] == '#');
    }
}

/// The title of a text is the first heading in its first forty lines.
pub proof fn the_first_heading_is_the_title(all: Seq<Seq<char>>, from: int, i: int)
    requires
        0 <= from <= i,
        i <= all.len() && i <= 40,
        forall|k: int| from <= k < i ==> heading(#[trigger] all[k]) is None,
    ensures
        i < all.len() && i < 40 && heading(all[i]) is Some ==> first_heading(all, from) == heading(
            all[i],
        ),
        i == all.len() || i == 40 ==> first_heading(all, from) is None,
    decreases i - from,
{
    if from < i {
        assert(heading(all[from]) is None);
        the_first_heading_is_the_title(all, from + 1, i);
    }
}

/// A document is known by its path, with slashes; its title is that of its text, else its
/// file's name.
pub proof fn documents_are_known_by_path(
    path: Seq<char>,
    stem: Seq<char>,
    content: Seq<char>,
    art: Seq<char>,
)
    ensures
        ({
            let d = document(path, stem, Some(content), art);
            &&& d.id == d.pfad && d.art == art
            &&& d.pfad.len() == path.len()
            &&& forall|i: int|
                0 <= i < path.len() && path[i] != '\\' ==> #[trigger] d.pfad[i] == path[i]
            &&& forall|i: int| 0 <= i < path.len() && path[i] == '\\' ==> #[trigger] d.pfad[i] == '/'
            &&& first_heading(lines(content), 0) matches Some(t) ==> d.titel == t
            &&& first_heading(lines(content), 0) is None ==> d.titel == stem
        }),
        document(path, stem, None, art).titel == stem,
        document(path, stem, None, art).pfad == document(path, stem, Some(content), art).pfad,
{
    assert(slashed(path).len() == path.len());
}

/// Documents that stand in the order of their paths stay as they are.
pub proof fn ordered_documents_stay(s: Seq<QuelleView>)
    requires
        forall|i: int, k: int|
            0 <= i < k < s.len() ==> !less((#[trigger] s[k]).pfad, (#[trigger] s[i]).pfad),
    ensures
        by_path(s) == s,
    decreases s.len(),
{
    if s.len() > 0 {
        let t = s.drop_last();
        ordered_documents_stay(t);
        if t.len() > 0 {
            assert(!less(s[s.len() - 1].pfad, s[t.len() - 1].pfad));
            assert(t.last() == s[t.len() - 1]);
        }
        assert(t.push(s.last()) =~= s);
    }
}

// ---- the nodes' files ----

/// Nodes are listed by date, and by id where the dates are the same; in that order they
/// stay as they are.
pub proof fn nodes_are_listed_by_date(s: Seq<NodeView>, i: int, k: int)
    ensures
        0 <= i < k < s.len() ==> {
            let a = in_order(s)[i];
            let b = in_order(s)[k];
            !less(b.datum, a.datum) && (a.datum == b.datum ==> !less(b.id, a.id))
        },
        in_order(s).to_multiset() == s.to_multiset(),
        (forall|x: int, y: int|
            0 <= x < y < s.len() ==> !less((#[trigger] s[y]).datum, (#[trigger] s[x]).datum) && (
            s[x].datum == s[y].datum ==> !less(s[y].id, s[x].id))) ==> in_order(s) == s,
{
    crate::store::layout::nodes_are_sorted(s);
    in_order(s).to_multiset_ensures();
    s.to_multiset_ensures();
    assert(in_order(s).len() == s.len());
    if 0 <= i < k < s.len() {
        let a = in_order(s)[i];
        let b = in_order(s)[k];
        assert(!crate::store::layout::listed_before(b, a));
    }
    if forall|x: int, y: int|
        0 <= x < y < s.len() ==> !less((#[trigger] s[y]).datum, (#[trigger] s[x]).datum) && (
        s[x].datum == s[y].datum ==> !less(s[y].id, s[x].id)) {
        lemma_ordered_nodes(s);
    }
}

proof fn lemma_ordered_nodes(s: Seq<NodeView>)
    requires
        forall|x: int, y: int|
            0 <= x < y < s.len() ==> !less((#[trigger] s[y]).datum, (#[trigger] s[x]).datum) && (
            s[x].datum == s[y].datum ==> !less(s[y].id, s[x].id)),
    ensures
        in_order(s) == s,
    decreases s.len(),
{
    if s.len() > 0 {
        let t = s.drop_last();
        lemma_ordered_nodes(t);
        if t.len() > 0 {
            let x = s[t.len() - 1];
            let y = s[s.len() - 1];
            assert(!less(y.datum, x.datum) && (x.datum == y.datum ==> !less(y.id, x.id)));
            assert(t.last() == x);
        }
        assert(t.push(s.last()) =~= s);
    }
}

/// A node is kept in the file that its id names.
pub proof fn files_are_named_by_id(g: GraphView, name: Seq<char>, i: int)
    ensures
        is_wanted(g, name) <==> exists|k: int|
            0 <= k < g.nodes.len() && name == (#[trigger] g.nodes[k]).id + ".md"@,
        0 <= i < g.nodes.len() ==> is_wanted(g, g.nodes[i].id + ".md"@),
{
    if is_wanted(g, name) {
        let k = choose|k: int|
            0 <= k < g.nodes.len() && crate::store::layout::file_of((#[trigger] g.nodes[k]).id)
                == name;
        assert(name == g.nodes[k].id + ".md"@);
    }
    if 0 <= i < g.nodes.len() {
        let n = g.nodes[i].id + ".md"@;
        assert(crate::store::layout::file_of(g.nodes[i].id) == n);
    }
}

/// The head of a node's file has an entry for each thing that is known of the node, under
/// its name; what is open has none.
pub proof fn heads_name_what_is_known(n: NodeView, basis: Seq<char>, score: Seq<char>)
    ensures
        ({
            let h = head_entries(n, basis, score);
            let k = h.len() as int;
            &&& k >= 11
            &&& h[0] == ("id"@, quoted(n.id))
            &&& h[1] == ("typ"@, quoted(n.typ.code()))
            &&& h[2] == ("datum"@, quoted(n.datum))
            &&& h[3] == ("basis_score"@, basis)
            &&& h[4] == ("score"@, score)
            &&& h[5] == ("status"@, quoted(n.status))
            &&& h[6] == ("herkunft"@, quoted(n.herkunft))
            &&& n.frage_id matches Some(s) ==> h.contains(("frage_id"@, quoted(s)))
            &&& n.wert matches Some(s) ==> h.contains(("wert"@, quoted(s)))
            &&& n.session_id matches Some(s) ==> h.contains(("session_id"@, quoted(s)))
            &&& k == 11 + (if n.frage_id is Some {
                1int
            } else {
                0
            }) + (if n.wert is Some {
                1int
            } else {
                0
            }) + (if n.session_id is Some {
                1int
            } else {
                0
            })
            &&& h[k - 4] == ("quelle_ids"@, quoted_list(n.quelle_ids))
            &&& h[k - 3] == ("tags"@, quoted_list(n.tags))
            &&& h[k - 2] == ("ueberholt"@, if n.ueberholt {
                "true"@
            } else {
                "false"@
            })
            &&& h[k - 1] == ("erledigt"@, if n.erledigt {
                "true"@
            } else {
                "false"@
            })
        }),
{
    let h = head_entries(n, basis, score);
    if let Some(s) = n.frage_id {
        assert(h[7] == ("frage_id"@, quoted(s)));
    }
    let a: int = if n.frage_id is Some {
        8
    } else {
        7
    };
    if let Some(s) = n.wert {
        assert(h[a] == ("wert"@, quoted(s)));
    }
    let b: int = if n.wert is Some {
        a + 1
    } else {
        a
    };
    if let Some(s) = n.session_id {
        assert(h[b] == ("session_id"@, quoted(s)));
    }
}

/// A node's file has its head between two lines of dashes, an entry per line; then its
/// statement, a mark and the reason.
pub proof fn files_have_head_and_body(
    n: NodeView,
    basis: Seq<char>,
    score: Seq<char>,
    entries: Seq<Entry>,
    e: Entry,
)
    ensures
        node_text(n, basis, score) == seq!['-', '-', '-', '\n'] + head_text(
            head_entries(n, basis, score),
        ) + seq!['-', '-', '-', '\n', '\n'] + (n.inhalt + seq!['\n', '\n']
            + "<!-- begründung -->"@ + seq!['\n'] + n.begruendung + seq!['\n']),
        head_text(Seq::empty()).len() == 0,
        head_text(entries.push(e)) == head_text(entries) + (e.0 + ": "@ + e.1) + seq!['\n'],
{
    assert(entries.push(e).drop_last() =~= entries);
}

/// What stands in the head of a file is read by name: the node's id and type, without
/// which it is none, its date, status, origin, question, value, session, sources, tags and
/// flags; what is missing is open or empty.
pub proof fn heads_are_read_by_name(head: Seq<Seq<char>>, body: Seq<char>)
    ensures
        node_of_parts(head, body) is Some <==> head_string(head, "id"@) is Some && NodeType::of_code(
            lowercase(
                trimmed(
                    match head_string(head, "typ"@) {
                        Some(t) => t,
                        None => Seq::empty(),
                    },
                ),
            ),
        ) is Some,
        node_of_parts(head, body) matches Some(f) ==> {
            &&& Some(f.node.id) == head_string(head, "id"@)
            &&& head_string(head, "typ"@) matches Some(t) ==> NodeType::of_code(
                lowercase(trimmed(t)),
            ) == Some(f.node.typ)
            &&& head_string(head, "datum"@) matches Some(t) ==> f.node.datum == t
            &&& head_string(head, "datum"@) is None ==> f.node.datum.len() == 0
            &&& head_string(head, "status"@) matches Some(t) ==> f.node.status == t
            &&& head_string(head, "status"@) is None ==> f.node.status.len() == 0
            &&& head_string(head, "herkunft"@) matches Some(t) ==> f.node.herkunft == t
            &&& head_string(head, "herkunft"@) is None ==> f.node.herkunft.len() == 0
            &&& f.node.frage_id == head_string(head, "frage_id"@)
            &&& f.node.wert == head_string(head, "wert"@)
            &&& f.node.session_id == head_string(head, "session_id"@)
            &&& f.node.quelle_ids == head_list(head, "quelle_ids"@)
            &&& f.node.tags == head_list(head, "tags"@)
            &&& f.node.ueberholt == head_flag(head, "ueberholt"@)
            &&& f.node.erledigt == head_flag(head, "erledigt"@)
            &&& f.basis_score == head_value(head, "basis_score"@)
            &&& f.score == head_value(head, "score"@)
        },
{
}

/// A line of the head sets the entry before its first colon to what follows; a later line
/// takes the place of an earlier one, and a line without a colon sets nothing.
pub proof fn later_entries_count(
    head: Seq<Seq<char>>,
    line: Seq<char>,
    key: Seq<char>,
    other: Seq<char>,
    i: int,
)
    requires
        0 <= i <= line.len(),
        forall|k: int| 0 <= k < i ==> #[trigger] line[k] != ':',
        i < line.len() ==> line[i] == ':' && key == trimmed(line.take(i)),
        other != key,
    ensures
        i < line.len() ==> head_value(head.push(line), key) == Some(trimmed(line.skip(i + 1))),
        i < line.len() ==> head_value(head.push(line), other) == head_value(head, other),
        i == line.len() ==> head_value(head.push(line), key) == head_value(head, key),
        head_value(Seq::empty(), key) is None,
{
    assert(head.push(line).drop_last() =~= head);
    lemma_colon(line, 0, i);
}

proof fn lemma_colon(line: Seq<char>, from: int, i: int)
    requires
        0 <= from <= i <= line.len(),
        forall|k: int| from <= k < i ==> #[trigger] line[k] != ':',
        i < line.len() ==> line[i] == ':',
    ensures
        i < line.len() ==> crate::text::find_from(line, seq![':'], from) == Some(i),
        i == line.len() ==> crate::text::find_from(line, seq![':'], from) is None,
    decreases i - from,
{
    if from < i {
        assert(line[from] != ':');
        if crate::text::occurs_at(line, seq![':'], from) {
            assert(line.subrange(from, from + 1)[0] == ':');
        }
        lemma_colon(line, from + 1, i);
    } else if i < line.len() {
        assert(line.subrange(i, i + 1) =~= seq![':']);
    } else {
        reveal_with_fuel(crate::text::find_from, 2);
    }
}

/// A value in the head that is a JSON text or a list of such is read as one; another
/// stands for itself, or for no list.
pub proof fn values_are_unquoted(head: Seq<Seq<char>>, key: Seq<char>, v: Seq<char>, t: Seq<char>)
    requires
        head_value(head, key) == Some(v),
    ensures
        text_of_json(v) == Some(t) ==> head_string(head, key) == Some(t),
        text_of_json(v) is None ==> head_string(head, key) == Some(v),
        texts_of_json(v) is None ==> head_list(head, key).len() == 0,
        texts_of_json(v) matches Some(l) ==> head_list(head, key) == l,
{
}

/// A flag in the head is set by the word `true` alone.
pub proof fn flags_are_set_by_true(head: Seq<Seq<char>>, key: Seq<char>)
    ensures
        head_flag(head, key) <==> (head_value(head, key) matches Some(v) && trimmed(v)
            == "true"@),
{
}

/// A file that does not begin with a line of dashes is no node, nor one whose head no such
/// line ends.
pub proof fn heads_stand_between_dashes(s: Seq<char>, line: Seq<char>, rest: Seq<char>)
    requires
        forall|i: int| 0 <= i < line.len() ==> #[trigger] line[i] != '\n',
        line.len() > 0 ==> line.last() != '\r',
    ensures
        !seq!['-', '-', '-', '\n'].is_prefix_of(s) && !seq!['-', '-', '-', '\r', '\n'].is_prefix_of(
            s,
        ) ==> node_of_text(s) is None,
        head_and_body(Seq::empty()) is None,
        line == seq!['-', '-', '-'] ==> head_and_body(line + seq!['\n'] + rest) == Some(
            (Seq::<Seq<char>>::empty(), rest),
        ),
        line != seq!['-', '-', '-'] ==> match head_and_body(rest) {
            Some(r) => head_and_body(line + seq!['\n'] + rest) == Some((seq![line] + r.0, r.1)),
            None => head_and_body(line + seq!['\n'] + rest) is None,
        },
{
    reveal_strlit("---");
    assert("---"@ =~= seq!['-', '-', '-']);
    let t = line + seq!['\n'] + rest;
    let k = line.len() as int;
    assert(t[k] == '\n');
    crate::text::lemma_break_is_first(t, 0, k);
    assert(t.take(k) =~= line);
    assert(t.skip(k + 1) =~= rest);
}

/// A body in which no line is the mark is a statement without a reason; the line feeds at
/// its end are no part of it.
pub proof fn bodies_without_a_mark_have_no_reason(s: Seq<char>)
    requires
        separator(s, 0) is None,
        s.len() > 0 ==> s.last() != '\n',
    ensures
        body_parts(s) == (s, Seq::<char>::empty()),
        separator(s.push('\n'), 0) is None ==> body_parts(s.push('\n')) == (
            s,
            Seq::<char>::empty(),
        ),
{
    assert(s.push('\n').drop_last() =~= s);
}

/// A list that is kept as JSON is read where each item of it is; else it is empty.
pub proof fn lists_are_read_whole(text: Seq<char>, items: Seq<JsonView>, i: int)
    ensures
        !(json_of_text(text) matches Some(JsonView::Arr(_))) ==> edges_of_text(text).len() == 0
            && fragen_of_text(text).len() == 0 && quellen_of_text(text).len() == 0,
        json_of_text(text) == Some(JsonView::Arr(items)) ==> {
            &&& (forall|k: int| 0 <= k < items.len() ==> edge_of_json(#[trigger] items[k]) is Some)
                ==> edges_of_text(text).len() == items.len() && (0 <= i < items.len() ==> Some(
                edges_of_text(text)[i],
            ) == edge_of_json(items[i]))
            &&& (forall|k: int| 0 <= k < items.len() ==> frage_of_json(#[trigger] items[k]) is Some)
                ==> fragen_of_text(text).len() == items.len() && (0 <= i < items.len() ==> Some(
                fragen_of_text(text)[i],
            ) == frage_of_json(items[i]))
            &&& (forall|k: int|
                0 <= k < items.len() ==> quelle_of_json(#[trigger] items[k]) is Some)
                ==> quellen_of_text(text).len() == items.len() && (0 <= i < items.len() ==> Some(
                quellen_of_text(text)[i],
            ) == quelle_of_json(items[i]))
            &&& 0 <= i < items.len() && edge_of_json(items[i]) is None ==> edges_of_text(text).len()
                == 0
            &&& 0 <= i < items.len() && frage_of_json(items[i]) is None ==> fragen_of_text(
                text,
            ).len() == 0
            &&& 0 <= i < items.len() && quelle_of_json(items[i]) is None ==> quellen_of_text(
                text,
            ).len() == 0
        },
{
    if json_of_text(text) == Some(JsonView::Arr(items)) {
        let a = |j: JsonView| edge_of_json(j);
        let b = |j: JsonView| frage_of_json(j);
        let c = |j: JsonView| quelle_of_json(j);
        assert(forall|k: int|
            0 <= k < items.len() ==> a(#[trigger] items[k]) == edge_of_json(items[k]));
        assert(forall|k: int|
            0 <= k < items.len() ==> b(#[trigger] items[k]) == frage_of_json(items[k]));
        assert(forall|k: int|
            0 <= k < items.len() ==> c(#[trigger] items[k]) == quelle_of_json(items[k]));
        if 0 <= i < items.len() {
            assert(items[i] == items[i]);
        }
    }
}

/// A text is quoted character by character: quotes and backslashes get a backslash,
/// control characters their escape, and all others stand as they are.
pub proof fn texts_are_quoted(s: Seq<char>, c: char, list: Seq<Seq<char>>)
    ensures
        quoted(s) == seq!['"'] + escaped(s) + seq!['"'],
        escaped(Seq::empty()).len() == 0,
        escaped(s.push(c)) == escaped(s) + escaped_char(c),
        (c as u32) >= 0x20 && c != '"' && c != '\\' ==> escaped_char(c) == seq![c],
        escaped_char('"') == seq!['\\', '"'],
        escaped_char('\\') == seq!['\\', '\\'],
        escaped_char('\n') == seq!['\\', 'n'],
        escaped_char('\r') == seq!['\\', 'r'],
        escaped_char('\t') == seq!['\\', 't'],
        escaped_char('\u{8}') == seq!['\\', 'b'],
        escaped_char('\u{c}') == seq!['\\', 'f'],
        quoted_list(list) == seq!['['] + joined(
            Seq::new(list.len(), |i: int| quoted(list[i])),
            seq![','],
        ) + seq![']'],
{
    assert(s.push(c).drop_last() =~= s);
    assert(list.map_values(|t: Seq<char>| quoted(t)) =~= Seq::new(
        list.len(),
        |i: int| quoted(list[i]),
    ));
}

// ---- edges, questions and documents ----

/// The object says the text under the key.
pub open spec fn tells(j: JsonView, key: Seq<char>, t: Seq<char>) -> bool {
    field(j, key) == Some(JsonView::Str(t))
}

/// An edge is spelled by its id, its two ends, its polarity and its weight, and is none
/// where one of these is missing.
pub proof fn edges_are_read_as_spelled(
    fields: Seq<(Seq<char>, JsonView)>,
    id: Seq<char>,
    von: Seq<char>,
    zu: Seq<char>,
    polaritaet: Seq<char>,
    gewicht: Seq<char>,
)
    ensures
        ({
            let j = JsonView::Obj(fields);
            (edge_of_json(j) matches Some(e) && e.edge.id == id && e.edge.von == von && e.edge.zu
                == zu && e.edge.polaritaet == polaritaet && e.gewicht == gewicht) <==> tells(
                j,
                "id"@,
                id,
            ) && tells(j, "von"@, von) && tells(j, "zu"@, zu) && tells(
                j,
                "polaritaet"@,
                polaritaet,
            ) && field(j, "gewicht"@) == Some(JsonView::Number(gewicht))
        }),
{
}

/// A question is spelled by its id, its words and its values; without values it has none.
pub proof fn questions_are_read_as_spelled(
    fields: Seq<(Seq<char>, JsonView)>,
    id: Seq<char>,
    inhalt: Seq<char>,
    werte: Seq<Seq<char>>,
)
    ensures
        ({
            let j = JsonView::Obj(fields);
            &&& frage_of_json(j) is Some ==> (frage_of_json(j)->0.id == id <==> tells(j, "id"@, id))
                && (frage_of_json(j)->0.inhalt == inhalt <==> tells(j, "inhalt"@, inhalt))
            &&& tells(j, "id"@, id) && tells(j, "inhalt"@, inhalt) && field(j, "werte"@) is None
                ==> (frage_of_json(j) matches Some(f) && f.id == id && f.inhalt == inhalt
                && f.werte.len() == 0)
            &&& tells(j, "id"@, id) && tells(j, "inhalt"@, inhalt) && field(j, "werte"@) == Some(
                JsonView::Arr(Seq::new(werte.len(), |i: int| JsonView::Str(werte[i]))),
            ) ==> (frage_of_json(j) matches Some(f) && f.id == id && f.inhalt == inhalt && f.werte
                == werte)
        }),
{
    let items = Seq::new(werte.len(), |i: int| JsonView::Str(werte[i]));
    assert(items.map_values(|v: JsonView| v->Str_0) =~= werte);
}

/// A document is spelled by its id, its path, its title and its kind, and is none where
/// one of these is missing.
pub proof fn documents_are_read_as_spelled(
    fields: Seq<(Seq<char>, JsonView)>,
    id: Seq<char>,
    pfad: Seq<char>,
    titel: Seq<char>,
    art: Seq<char>,
)
    ensures
        ({
            let j = JsonView::Obj(fields);
            quelle_of_json(j) == Some(QuelleView { id, pfad, titel, art }) <==> tells(j, "id"@, id)
                && tells(j, "pfad"@, pfad) && tells(j, "titel"@, titel) && tells(j, "art"@, art)
        }),
{
}

/// What is no object and no list is no edge, no question and no document.
pub proof fn plain_values_are_no_records(j: JsonView)
    requires
        !(j is Obj) && !(j is Arr),
    ensures
        edge_of_json(j) is None,
        frage_of_json(j) is None,
        quelle_of_json(j) is None,
        layer_of(j) is None,
{
}

/// A record may be a list of its members in order, and no longer than these.
pub proof fn records_may_be_lists(items: Seq<JsonView>, key: Seq<char>, i: int)
    ensures
        0 <= i < items.len() ==> member(JsonView::Arr(items), key, i) == Some(items[i]),
        i >= items.len() ==> member(JsonView::Arr(items), key, i) is None,
        quelle_of_json(JsonView::Arr(items)) matches Some(q) ==> items.len() == 4 && items[0]
            == JsonView::Str(q.id) && items[1] == JsonView::Str(q.pfad) && items[2]
            == JsonView::Str(q.titel) && items[3] == JsonView::Str(q.art),
        edge_of_json(JsonView::Arr(items)) matches Some(e) ==> items.len() == 5 && items[0]
            == JsonView::Str(e.edge.id) && items[1] == JsonView::Str(e.edge.von) && items[2]
            == JsonView::Str(e.edge.zu) && items[3] == JsonView::Str(e.edge.polaritaet) && items[4]
            == JsonView::Number(e.gewicht),
        items.len() > 3 ==> frage_of_json(JsonView::Arr(items)) is None,
        items.len() > 10 ==> layer_of(JsonView::Arr(items)) is None,
{
}

// ---- members ----

/// A text, a list of texts, a flag or a number under a key is read where it is one; else
/// there is none.
pub proof fn fields_are_read_by_kind(
    j: JsonView,
    key: Seq<char>,
    t: Seq<char>,
    b: bool,
    n: u64,
    items: Seq<JsonView>,
)
    ensures
        text_field(j, key) == Some(t) <==> field(j, key) == Some(JsonView::Str(t)),
        flag_field(j, key) == Some(b) <==> field(j, key) == Some(JsonView::Bool(b)),
        natural_field(j, key) == Some(n) <==> (field(j, key) matches Some(JsonView::Number(d))
            && natural(d) == Some(n)),
        text_list(JsonView::Arr(items)) is Some <==> forall|i: int|
            0 <= i < items.len() ==> (#[trigger] items[i]) is Str,
        text_list(JsonView::Arr(items)) matches Some(l) ==> l.len() == items.len() && forall|i: int|
            0 <= i < items.len() ==> JsonView::Str(#[trigger] l[i]) == items[i],
        !(j is Arr) ==> text_list(j) is None,
{
    if let Some(l) = text_list(JsonView::Arr(items)) {
        assert forall|i: int| 0 <= i < items.len() implies JsonView::Str(#[trigger] l[i])
            == items[i] by {
            assert(items[i] is Str);
        }
    }
}

/// A setting that is missing or null is open; one of another kind makes the file unfit.
pub proof fn open_settings_are_missing_or_null(
    t: Seq<char>,
    b: bool,
    n: u64,
    max: int,
    j: JsonView,
)
    ensures
        opt_text_member(None) == Some(None::<Seq<char>>),
        opt_text_member(Some(JsonView::Null)) == Some(None::<Seq<char>>),
        opt_text_member(Some(JsonView::Str(t))) == Some(Some(t)),
        !(j is Null) && !(j is Str) ==> opt_text_member(Some(j)) is None,
        opt_flag_member(None) == Some(None::<bool>),
        opt_flag_member(Some(JsonView::Null)) == Some(None::<bool>),
        opt_flag_member(Some(JsonView::Bool(b))) == Some(Some(b)),
        !(j is Null) && !(j is Bool) ==> opt_flag_member(Some(j)) is None,
        opt_natural_member(None, max) == Some(None::<u64>),
        opt_natural_member(Some(JsonView::Null), max) == Some(None::<u64>),
        natural(t) == Some(n) && n <= max ==> opt_natural_member(Some(JsonView::Number(t)), max)
            == Some(Some(n)),
        natural(t) == Some(n) && n > max ==> opt_natural_member(Some(JsonView::Number(t)), max)
            is None,
        natural(t) is None ==> opt_natural_member(Some(JsonView::Number(t)), max) is None,
        !(j is Null) && !(j is Number) ==> opt_natural_member(Some(j), max) is None,
        texts_or_none(None) == Some(Seq::<Seq<char>>::empty()),
        texts_or_none(Some(j)) == text_list(j),
{
}

// ---- settings ----

/// What holds where nothing is set.
pub proof fn defaults(host: Seq<char>)
    ensures
        ({
            let c = default_config(host);
            &&& c.enabled
            &&& c.knowledge_dir == "."@ + host + "/knowledge"@
            &&& c.model is None && c.prompt_extra is None && c.prompt_file is None
            &&& c.idle_daemon_secs == 600
            &&& c.min_interval_secs == 45
            &&& c.obs_max_turns == 30
            &&& c.max_decisions == 15
            &&& c.max_questions == 15
        }),
{
}

/// The settings file sets each setting under its own name.
pub proof fn the_file_sets_by_name(text: Seq<char>, fields: Seq<(Seq<char>, JsonView)>)
    requires
        json_of_text(text) == Some(JsonView::Obj(fields)),
    ensures
        ({
            let j = JsonView::Obj(fields);
            let l = file_layer(Some(text));
            l != nothing_set() ==> {
                &&& opt_flag_member(field(j, "enabled"@)) == Some(l.enabled)
                &&& opt_text_member(field(j, "knowledge_dir"@)) == Some(l.knowledge_dir)
                &&& opt_text_member(field(j, "model"@)) == Some(l.model)
                &&& opt_natural_member(field(j, "idle_daemon_secs"@), u64::MAX as int) == Some(
                    l.idle_daemon_secs,
                )
                &&& opt_natural_member(field(j, "min_interval_secs"@), u64::MAX as int) == Some(
                    l.min_interval_secs,
                )
                &&& opt_natural_member(field(j, "obs_max_turns"@), u32::MAX as int) == Some(
                    match l.obs_max_turns {
                        Some(n) => Some(n as u64),
                        None => None,
                    },
                )
                &&& opt_natural_member(field(j, "max_decisions"@), usize::MAX as int) == Some(
                    match l.max_decisions {
                        Some(n) => Some(n as u64),
                        None => None,
                    },
                )
                &&& opt_natural_member(field(j, "max_questions"@), usize::MAX as int) == Some(
                    match l.max_questions {
                        Some(n) => Some(n as u64),
                        None => None,
                    },
                )
                &&& opt_text_member(field(j, "prompt_extra"@)) == Some(l.prompt_extra)
                &&& opt_text_member(field(j, "prompt_file"@)) == Some(l.prompt_file)
            }
        }),
{
}

/// A settings file that names no setting twice is used where each setting is of its kind,
/// and else not at all; nor is a file that is missing or no JSON.
pub proof fn unfit_files_set_nothing(text: Seq<char>, j: JsonView)
    ensures
        file_layer(None) == nothing_set(),
        json_of_text(text) is None ==> file_layer(Some(text)) == nothing_set(),
        json_of_text(text) == Some(j) && layer_of(j) is None ==> file_layer(Some(text))
            == nothing_set(),
        json_of_text(text) == Some(j) && repeats_any(text, crate::config::file_keys())
            ==> file_layer(Some(text)) == nothing_set(),
        json_of_text(text) == Some(j) && !repeats_any(text, crate::config::file_keys()) && layer_of(
            j,
        ) is Some ==> Some(file_layer(Some(text))) == layer_of(j),
        j is Obj ==> (layer_of(j) is Some <==> opt_flag_member(field(j, "enabled"@)) is Some
            && opt_text_member(field(j, "knowledge_dir"@)) is Some && opt_text_member(
            field(j, "model"@),
        ) is Some && opt_natural_member(field(j, "idle_daemon_secs"@), u64::MAX as int) is Some
            && opt_natural_member(field(j, "min_interval_secs"@), u64::MAX as int) is Some
            && opt_natural_member(field(j, "obs_max_turns"@), u32::MAX as int) is Some
            && opt_natural_member(field(j, "max_decisions"@), usize::MAX as int) is Some
            && opt_natural_member(field(j, "max_questions"@), usize::MAX as int) is Some
            && opt_text_member(field(j, "prompt_extra"@)) is Some && opt_text_member(
            field(j, "prompt_file"@),
        ) is Some),
{
}

/// Each variable of the environment sets its own setting; a word that is no flag, or a
/// text that is no number, sets nothing.
pub proof fn the_environment_sets_by_name(env: EnvLayer)
    ensures
        ({
            let l = env_layer(env);
            &&& env.enabled is None ==> l.enabled is None
            &&& env.enabled matches Some(s) ==> l.enabled == flag_word(s@)
            &&& env.knowledge_dir is None ==> l.knowledge_dir is None
            &&& env.knowledge_dir matches Some(s) ==> l.knowledge_dir == Some(s@)
            &&& env.model is None ==> l.model is None
            &&& env.model matches Some(s) ==> l.model == Some(s@)
            &&& l.idle_daemon_secs == env_number(env.idle_daemon_secs, u64::MAX as int)
            &&& l.min_interval_secs == env_number(env.min_interval_secs, u64::MAX as int)
            &&& env_number(env.obs_max_turns, u32::MAX as int) == (match l.obs_max_turns {
                Some(n) => Some(n as u64),
                None => None,
            })
            &&& env_number(env.max_decisions, usize::MAX as int) == (match l.max_decisions {
                Some(n) => Some(n as u64),
                None => None,
            })
            &&& env_number(env.max_questions, usize::MAX as int) == (match l.max_questions {
                Some(n) => Some(n as u64),
                None => None,
            })
            &&& env.prompt_extra is None ==> l.prompt_extra is None
            &&& env.prompt_extra matches Some(s) ==> l.prompt_extra == Some(s@)
            &&& env.prompt_file is None ==> l.prompt_file is None
            &&& env.prompt_file matches Some(s) ==> l.prompt_file == Some(s@)
            &&& env_number(None, 0) is None
        }),
{
}

/// Numbers of the environment are written in digits, with a plus or without, and are no
/// larger than what they set can hold.
pub proof fn numbers_may_have_a_plus(n: u64, max: int, s: Seq<char>)
    ensures
        n <= max ==> unsigned(decimal(n as nat), max) == Some(n),
        n <= max ==> unsigned(seq!['+'] + decimal(n as nat), max) == Some(n),
        n > max ==> unsigned(decimal(n as nat), max) is None,
        unsigned(s, max) matches Some(k) ==> k <= max && (natural(s) == Some(k) || (s.len() > 0
            && s[0] == '+' && natural(s.skip(1)) == Some(k))),
{
    let d = decimal(n as nat);
    crate::laws::values::numbers_are_written_in_decimal(n as nat);
    lemma_digits(n as nat);
    assert((seq!['+'] + d).skip(1) =~= d);
}

proof fn lemma_digits(n: nat)
    ensures
        decimal(n).len() > 0,
        '0' <= decimal(n)[0] <= '9',
    decreases n,
{
    crate::laws::values::numbers_are_written_in_decimal(n);
    if n >= 10 {
        lemma_digits(n / 10);
        assert(decimal(n).drop_last()[0] == decimal(n)[0]);
    }
}

/// The words for yes and for no, whatever their case and the white space around them; no
/// other word is a flag.
pub proof fn flags_have_their_words(s: Seq<char>)
    ensures
        ({
            let w = crate::text::ascii_lowered(trimmed(s));
            &&& flag_word(s) == Some(true) <==> w == "1"@ || w == "true"@ || w == "yes"@ || w
                == "on"@
            &&& flag_word(s) == Some(false) <==> w == "0"@ || w == "false"@ || w == "no"@ || w
                == "off"@
        }),
{
    reveal_strlit("1");
    reveal_strlit("true");
    reveal_strlit("yes");
    reveal_strlit("on");
    reveal_strlit("0");
    reveal_strlit("false");
    reveal_strlit("no");
    reveal_strlit("off");
    assert("1"@[0] == '1' && "true"@[0] == 't' && "yes"@[0] == 'y' && "on"@[0] == 'o' && "on"@.len()
        == 2);
    assert("0"@[0] == '0' && "false"@[0] == 'f' && "no"@[0] == 'n' && "off"@[0] == 'o'
        && "off"@.len() == 3);
}

/// A setting is looked for in the plugin's options first and then in the observer's own
/// variable.
pub proof fn settings_have_their_variables(key: Seq<char>, upper: Seq<char>)
    ensures
        names_of(key, upper).len() == 3,
        names_of(key, upper)[0] == "CLAUDE_PLUGIN_OPTION_"@ + key,
        names_of(key, upper)[1] == "CLAUDE_PLUGIN_OPTION_"@ + upper,
        names_of(key, upper)[2] == "OBSERVER_"@ + upper,
{
}

// ---- keys that stand twice ----

proof fn lemma_times(keys: Seq<Seq<char>>, key: Seq<char>, n: int)
    requires
        0 <= n <= keys.len(),
    ensures
        times(keys, key, n) > 0 <==> exists|i: int|
            0 <= i < n && text_of_json(#[trigger] keys[i]) == Some(key),
        times(keys, key, n) > 1 <==> exists|i: int, k: int|
            0 <= i < k < n && text_of_json(#[trigger] keys[i]) == Some(key) && text_of_json(
                #[trigger] keys[k],
            ) == Some(key),
    decreases n,
{
    if n > 0 {
        lemma_times(keys, key, n - 1);
        let last = keys[n - 1];
        if text_of_json(last) == Some(key) {
            if times(keys, key, n - 1) > 0 {
                let i = choose|i: int|
                    0 <= i < n - 1 && text_of_json(#[trigger] keys[i]) == Some(key);
                assert(text_of_json(keys[i]) == Some(key) && text_of_json(keys[n - 1]) == Some(
                    key,
                ));
            }
        }
    }
}

/// A key stands twice in a text where two of the keys of its object are that key.
pub proof fn keys_may_stand_once(s: Seq<char>, wanted: Seq<Seq<char>>)
    ensures
        ({
            let keys = key_scan(s, s.len() as int).keys;
            repeats_any(s, wanted) <==> exists|w: int, i: int, k: int|
                #![trigger wanted[w], keys[i], keys[k]]
                0 <= w < wanted.len() && 0 <= i < k < keys.len() && text_of_json(keys[i]) == Some(
                    wanted[w],
                ) && text_of_json(keys[k]) == Some(wanted[w])
        }),
{
    let keys = key_scan(s, s.len() as int).keys;
    let n = keys.len() as int;
    if repeats_any(s, wanted) {
        let w = choose|w: int| 0 <= w < wanted.len() && repeats(s, #[trigger] wanted[w]);
        lemma_times(keys, wanted[w], n);
        let (i, k) = choose|i: int, k: int|
            0 <= i < k < n && text_of_json(#[trigger] keys[i]) == Some(wanted[w]) && text_of_json(
                #[trigger] keys[k],
            ) == Some(wanted[w]);
        assert(text_of_json(keys[i]) == Some(wanted[w]));
    }
    assert forall|w: int, i: int, k: int|
        #![trigger wanted[w], keys[i], keys[k]]
        0 <= w < wanted.len() && 0 <= i < k < keys.len() && text_of_json(keys[i]) == Some(
            wanted[w],
        ) && text_of_json(keys[k]) == Some(wanted[w]) implies repeats_any(s, wanted) by {
        lemma_times(keys, wanted[w], n);
        assert(repeats(s, wanted[w]));
    }
}

/// The keys of an object are the strings that stand first behind its brace and behind the
/// commas between its members; strings elsewhere are none.
pub proof fn keys_stand_behind_brace_and_comma(s: Seq<char>, i: int, j: int)
    requires
        0 <= i < j < s.len(),
        !key_scan(s, i).in_string,
        !key_scan(s, i).escaped,
        key_scan(s, i).start is None,
        s[i] == '"',
        s[j] == '"',
        forall|k: int| i < k < j ==> #[trigger] s[k] != '"' && s[k] != '\\',
    ensures
        ({
            let a = key_scan(s, i);
            let b = key_scan(s, j + 1);
            &&& !b.in_string && b.nest == a.nest
            &&& a.nest == 1 && a.key_next ==> b.keys == a.keys.push(s.subrange(i, j + 1))
                && !b.key_next
            &&& !(a.nest == 1 && a.key_next) ==> b.keys == a.keys && b.key_next == a.key_next
        }),
{
    lemma_inside(s, i, j);
}

proof fn lemma_inside(s: Seq<char>, i: int, n: int)
    requires
        0 <= i < n <= s.len(),
        !key_scan(s, i).in_string,
        !key_scan(s, i).escaped,
        key_scan(s, i).start is None,
        s[i] == '"',
        forall|k: int| i < k < n ==> #[trigger] s[k] != '"' && s[k] != '\\',
    ensures
        ({
            let a = key_scan(s, i);
            let b = key_scan(s, n);
            &&& b.in_string && !b.escaped && b.nest == a.nest && b.keys == a.keys
            &&& a.nest == 1 && a.key_next ==> b.start == Some(i) && !b.key_next
            &&& !(a.nest == 1 && a.key_next) ==> b.start is None && b.key_next == a.key_next
        }),
    decreases n,
{
    if n > i + 1 {
        lemma_inside(s, i, n - 1);
        assert(s[n - 1] != '"');
    }
}

/// Outside strings the next string is a key behind the brace that opens the object, and
/// behind a comma in it; inner braces and brackets nest.
pub proof fn braces_and_commas_make_room_for_keys(s: Seq<char>, i: int)
    requires
        0 <= i < s.len(),
        !key_scan(s, i).in_string,
    ensures
        ({
            let a = key_scan(s, i);
            let b = key_scan(s, i + 1);
            &&& key_scan(s, 0).keys.len() == 0 && key_scan(s, 0).nest == 0
            &&& s[i] != '"' ==> b.keys == a.keys && !b.in_string
            &&& s[i] == '{' ==> b.nest == a.nest + 1 && b.key_next == (a.nest == 0)
            &&& s[i] == '[' ==> b.nest == a.nest + 1 && !b.key_next
            &&& s[i] == '}' || s[i] == ']' ==> b.nest == a.nest - 1
            &&& s[i] == ',' && a.nest == 1 ==> b.key_next && b.nest == 1
            &&& s[i] == ',' && a.nest != 1 ==> b == a
            &&& s[i] != '"' && s[i] != '{' && s[i] != '[' && s[i] != '}' && s[i] != ']' && s[i]
                != ',' ==> b == a
        }),
{
}

} // verus!
