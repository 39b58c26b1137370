//! The file of a node: a head of `key: value` lines between two `---` lines, then
//! the statement, a separator line and the rationale. Texts in the head are JSON
//! strings, lists are JSON arrays. The two scores stand there in decimal, which the
//! caller writes and reads.

use vstd::prelude::*;
use vstd::slice::slice_subrange;
use vstd::string::StringExecFns;

use crate::json::{
    lemma_quoted, lemma_quoted_list, one_line, quoted, quoted_list, read_text, read_texts,
    text_of_json, texts_of_json, write_text, write_texts,
};
use crate::score::Score;
use crate::store::model::{Node, NodeType, NodeView};
use crate::text;
use crate::text::{
    find_from, first_break, lemma_break_is_first, lemma_first_break, lemma_trimmed_same, lowercase,
    texts, trimmed, white,
};

verus! {

/// The line between the statement and the rationale.
pub const BODY_SEP: &'static str = "<!-- begründung -->";

/// A node read from its file. The scores of the node are zero; the head's texts for
/// them are given beside it.
#[derive(Debug)]
pub struct NodeFile {
    pub node: Node,
    pub basis_score: Option<String>,
    pub score: Option<String>,
}

#[verifier::ext_equal]
pub struct NodeFileView {
    pub node: NodeView,
    pub basis_score: Option<Seq<char>>,
    pub score: Option<Seq<char>>,
}

impl View for NodeFile {
    type V = NodeFileView;

    open spec fn view(&self) -> NodeFileView {
        NodeFileView {
            node: self.node@,
            basis_score: text::opt_text(self.basis_score),
            score: text::opt_text(self.score),
        }
    }
}

// ---- writing ----

/// An entry of the head: a key and the text of its value.
pub type Entry = (Seq<char>, Seq<char>);

/// The line of an entry.
pub open spec fn entry_line(e: Entry) -> Seq<char> {
    e.0 + ": "@ + e.1
}

/// The lines of a list of entries, each with its line feed.
pub open spec fn head_text(entries: Seq<Entry>) -> Seq<char>
    decreases entries.len(),
{
    if entries.len() == 0 {
        Seq::empty()
    } else {
        head_text(entries.drop_last()) + entry_line(entries.last()) + seq!['\n']
    }
}

/// The entry of an optional text.
pub open spec fn opt_entry(key: Seq<char>, o: Option<Seq<char>>) -> Seq<Entry> {
    match o {
        Some(s) => seq![(key, quoted(s))],
        None => Seq::empty(),
    }
}

/// A flag as a word.
pub open spec fn flag_text(b: bool) -> Seq<char> {
    if b {
        "true"@
    } else {
        "false"@
    }
}

/// The entries of a node's head.
pub open spec fn head_entries(n: NodeView, basis: Seq<char>, score: Seq<char>) -> Seq<Entry> {
    seq![
        ("id"@, quoted(n.id)),
        ("typ"@, quoted(n.typ.code())),
        ("datum"@, quoted(n.datum)),
        ("basis_score"@, basis),
        ("score"@, score),
        ("status"@, quoted(n.status)),
        ("herkunft"@, quoted(n.herkunft)),
    ] + opt_entry("frage_id"@, n.frage_id) + opt_entry("wert"@, n.wert) + opt_entry(
        "session_id"@,
        n.session_id,
    ) + seq![
        ("quelle_ids"@, quoted_list(n.quelle_ids)),
        ("tags"@, quoted_list(n.tags)),
        ("ueberholt"@, flag_text(n.ueberholt)),
        ("erledigt"@, flag_text(n.erledigt)),
    ]
}

/// The part of the file below the head.
pub open spec fn body_text(n: NodeView) -> Seq<char> {
    n.inhalt + seq!['\n', '\n'] + BODY_SEP@ + seq!['\n'] + n.begruendung + seq!['\n']
}

/// The file of a node.
pub open spec fn node_text(n: NodeView, basis: Seq<char>, score: Seq<char>) -> Seq<char> {
    seq!['-', '-', '-', '\n'] + head_text(head_entries(n, basis, score)) + seq![
        '-',
        '-',
        '-',
        '\n',
        '\n',
    ] + body_text(n)
}

// ---- reading ----

/// A line without the carriage returns at its end.
pub open spec fn without_crs(s: Seq<char>) -> Seq<char>
    decreases s.len(),
{
    if s.len() > 0 && s.last() == '\r' {
        without_crs(s.drop_last())
    } else {
        s
    }
}

/// The first line of a text, without its line feed.
pub open spec fn first_line(s: Seq<char>) -> Seq<char> {
    match first_break(s, 0) {
        Some(i) => s.take(i),
        None => s,
    }
}

/// What follows the first line.
pub open spec fn later_lines(s: Seq<char>) -> Seq<char> {
    match first_break(s, 0) {
        Some(i) => s.skip(i + 1),
        None => Seq::empty(),
    }
}

/// The lines up to the first line that is `---`, and the text behind that line.
pub open spec fn head_and_body(s: Seq<char>) -> Option<(Seq<Seq<char>>, Seq<char>)>
    decreases s.len(),
    via head_and_body_decreases
{
    if s.len() == 0 {
        None
    } else if without_crs(first_line(s)) == "---"@ {
        Some((Seq::empty(), later_lines(s)))
    } else {
        match head_and_body(later_lines(s)) {
            Some(r) => Some((seq![without_crs(first_line(s))] + r.0, r.1)),
            None => None,
        }
    }
}

#[via_fn]
proof fn head_and_body_decreases(s: Seq<char>) {
    lemma_first_break(s, 0);
}

/// The text behind the line that opens the head.
pub open spec fn behind_opening(s: Seq<char>) -> Option<Seq<char>> {
    if seq!['-', '-', '-', '\n'].is_prefix_of(s) {
        Some(s.skip(4))
    } else if seq!['-', '-', '-', '\r', '\n'].is_prefix_of(s) {
        Some(s.skip(5))
    } else {
        None
    }
}

/// The text without one line ending at its start.
pub open spec fn without_blank(s: Seq<char>) -> Seq<char> {
    if seq!['\r', '\n'].is_prefix_of(s) {
        s.skip(2)
    } else if seq!['\n'].is_prefix_of(s) {
        s.skip(1)
    } else {
        s
    }
}

/// The entry that a line of the head makes: split at the first colon.
pub open spec fn entry_of(line: Seq<char>) -> Option<Entry> {
    match find_from(line, seq![':'], 0) {
        Some(i) => Some((trimmed(line.take(i)), trimmed(line.skip(i + 1)))),
        None => None,
    }
}

/// The value of a key in the head. The last line with the key counts.
pub open spec fn head_value(lines: Seq<Seq<char>>, key: Seq<char>) -> Option<Seq<char>>
    decreases lines.len(),
{
    if lines.len() == 0 {
        None
    } else {
        match entry_of(lines.last()) {
            Some(e) => if e.0 == key {
                Some(e.1)
            } else {
                head_value(lines.drop_last(), key)
            },
            None => head_value(lines.drop_last(), key),
        }
    }
}

/// A text in the head: a JSON string, or else the text as it stands there.
pub open spec fn head_string(lines: Seq<Seq<char>>, key: Seq<char>) -> Option<Seq<char>> {
    match head_value(lines, key) {
        Some(v) => match text_of_json(v) {
            Some(s) => Some(s),
            None => Some(v),
        },
        None => None,
    }
}

/// A text in the head; a missing one is empty.
pub open spec fn head_string_or_empty(lines: Seq<Seq<char>>, key: Seq<char>) -> Seq<char> {
    match head_string(lines, key) {
        Some(s) => s,
        None => Seq::empty(),
    }
}

/// A list in the head; an unreadable or missing one is empty.
pub open spec fn head_list(lines: Seq<Seq<char>>, key: Seq<char>) -> Seq<Seq<char>> {
    match head_value(lines, key) {
        Some(v) => match texts_of_json(v) {
            Some(l) => l,
            None => Seq::empty(),
        },
        None => Seq::empty(),
    }
}

/// A flag in the head.
pub open spec fn head_flag(lines: Seq<Seq<char>>, key: Seq<char>) -> bool {
    match head_value(lines, key) {
        Some(v) => trimmed(v) == "true"@,
        None => false,
    }
}

/// The first separator line at or after `from`: where it begins, and where the text
/// behind it begins.
pub open spec fn separator(s: Seq<char>, from: int) -> Option<(int, int)>
    decreases s.len() - from,
    via separator_decreases
{
    if from < 0 || from >= s.len() {
        None
    } else {
        let end = line_end(s, from);
        if without_crs(s.subrange(from, end)) == BODY_SEP@ {
            Some((from, next_line(s, from)))
        } else {
            separator(s, next_line(s, from))
        }
    }
}

/// The end of the line that begins at `from`.
pub open spec fn line_end(s: Seq<char>, from: int) -> int {
    match first_break(s, from) {
        Some(i) => i,
        None => s.len() as int,
    }
}

/// Where the line after the one at `from` begins.
pub open spec fn next_line(s: Seq<char>, from: int) -> int {
    match first_break(s, from) {
        Some(i) => i + 1,
        None => s.len() as int,
    }
}

#[via_fn]
proof fn separator_decreases(s: Seq<char>, from: int) {
    lemma_first_break(s, from);
}

/// The text without one line feed at its end.
pub open spec fn without_feed(s: Seq<char>) -> Seq<char> {
    if s.len() > 0 && s.last() == '\n' {
        s.drop_last()
    } else {
        s
    }
}

/// The statement and the rationale of a body. Without a separator line all of it is
/// the statement.
pub open spec fn body_parts(body: Seq<char>) -> (Seq<char>, Seq<char>) {
    match separator(body, 0) {
        Some(r) => (without_feed(without_feed(body.take(r.0))), without_feed(body.skip(r.1))),
        None => (without_feed(without_feed(body)), Seq::empty()),
    }
}

/// The node that a head and a body make.
pub open spec fn node_of_parts(lines: Seq<Seq<char>>, body: Seq<char>) -> Option<NodeFileView> {
    let typ = NodeType::of_code(lowercase(trimmed(head_string_or_empty(lines, "typ"@))));
    match head_string(lines, "id"@) {
        None => None,
        Some(id) => match typ {
            None => None,
            Some(typ) => Some(
                NodeFileView {
                    node: NodeView {
                        id,
                        typ,
                        inhalt: body_parts(body).0,
                        begruendung: body_parts(body).1,
                        datum: head_string_or_empty(lines, "datum"@),
                        basis_score: Score { bits: 0 },
                        score: Score { bits: 0 },
                        status: head_string_or_empty(lines, "status"@),
                        herkunft: head_string_or_empty(lines, "herkunft"@),
                        frage_id: head_string(lines, "frage_id"@),
                        wert: head_string(lines, "wert"@),
                        quelle_ids: head_list(lines, "quelle_ids"@),
                        session_id: head_string(lines, "session_id"@),
                        tags: head_list(lines, "tags"@),
                        ueberholt: head_flag(lines, "ueberholt"@),
                        erledigt: head_flag(lines, "erledigt"@),
                    },
                    basis_score: head_value(lines, "basis_score"@),
                    score: head_value(lines, "score"@),
                },
            ),
        },
    }
}

/// The node that a file holds, or nothing where the head is missing or incomplete.
pub open spec fn node_of_text(s: Seq<char>) -> Option<NodeFileView> {
    match behind_opening(s) {
        None => None,
        Some(rest) => match head_and_body(rest) {
            None => None,
            Some(r) => node_of_parts(r.0, without_blank(r.1)),
        },
    }
}

fn range(v: &Vec<char>, i: usize, j: usize) -> (r: Vec<char>)
    requires
        i <= j <= v.len(),
    ensures
        r@ == v@.subrange(i as int, j as int),
{
    let mut out: Vec<char> = Vec::new();
    let mut k: usize = i;
    while k < j
        invariant
            i <= k <= j <= v.len(),
            out@ == v@.subrange(i as int, k as int),
        decreases j - k,
    {
        out.push(v[k]);
        k += 1;
        assert(v@.subrange(i as int, k as int) =~= v@.subrange(i as int, k - 1).push(v@[k - 1]));
    }
    out
}

/// The end of a line without the carriage returns before it.
fn bare_end(v: &Vec<char>, i: usize, j: usize) -> (r: usize)
    requires
        i <= j <= v.len(),
    ensures
        i <= r <= j,
        v@.subrange(i as int, r as int) == without_crs(v@.subrange(i as int, j as int)),
{
    let mut r: usize = j;
    let ghost line = v@.subrange(i as int, j as int);
    assert(line.take(j - i) =~= line);
    while r > i && v[r - 1] == '\r'
        invariant
            i <= r <= j <= v.len(),
            line == v@.subrange(i as int, j as int),
            without_crs(line) == without_crs(line.take(r - i)),
        decreases r,
    {
        assert(line.take(r - i).last() == v@[r - 1]);
        assert(line.take(r - i).drop_last() =~= line.take(r - i - 1));
        r -= 1;
    }
    if r > i {
        assert(line.take(r - i).last() == v@[r - 1]);
    }
    assert(v@.subrange(i as int, r as int) =~= line.take(r - i));
    r
}

/// Reads the head of a file from `from` on: its lines, and where the body begins.
fn read_head(v: &Vec<char>, from: usize) -> (r: Option<(Vec<String>, usize)>)
    requires
        from <= v.len(),
    ensures
        match r {
            Some(p) => p.1 <= v.len() && head_and_body(v@.skip(from as int)) == Some(
                (texts(p.0@), v@.skip(p.1 as int)),
            ),
            None => head_and_body(v@.skip(from as int)) is None,
        },
{
    let dashes: Vec<char> = vec!['-', '-', '-'];
    proof {
        reveal_strlit("---");
        assert(dashes@ =~= "---"@);
    }
    let mut lines: Vec<String> = Vec::new();
    let mut at: usize = from;
    let ghost all = head_and_body(v@.skip(from as int));
    while at < v.len()
        invariant
            dashes@ == "---"@,
            dashes.len() == 3,
            from <= at <= v.len(),
            all == head_and_body(v@.skip(from as int)),
            all == (match head_and_body(v@.skip(at as int)) {
                Some(p) => Some((texts(lines@) + p.0, p.1)),
                None => None,
            }),
        decreases v.len() - at,
    {
        let ghost rest = v@.skip(at as int);
        let (end, next): (usize, usize) = match text::find_break(v, at) {
            Some(i) => (i, i + 1),
            None => (v.len(), v.len()),
        };
        proof {
            lemma_first_break(v@, at as int);
            lemma_first_break(rest, 0);
            if first_break(v@, at as int) is Some {
                lemma_break_is_first(rest, 0, end - at);
                assert(rest.skip(end - at + 1) =~= v@.skip(next as int));
            } else {
                if first_break(rest, 0) is Some {
                    let i = first_break(rest, 0)->0;
                    assert(v@[at + i] == '\n');
                }
                assert(v@.skip(next as int) =~= Seq::empty());
            }
            assert(first_line(rest) =~= v@.subrange(at as int, end as int));
            assert(later_lines(rest) =~= v@.skip(next as int));
        }
        let bare: usize = bare_end(v, at, end);
        let line: Vec<char> = range(v, at, bare);
        if line.len() == 3 && text::matches_at(&line, &dashes, 0) {
            assert(line@.subrange(0, 3) =~= line@);
            proof {
                assert(texts(lines@) + Seq::<Seq<char>>::empty() =~= texts(lines@));
            }
            return Some((lines, next));
        }
        assert(line@ != "---"@) by {
            if line@ == "---"@ {
                assert(line@.subrange(0, 3) =~= line@);
            }
        }
        let ghost before = lines@;
        lines.push(text::string_of(line.as_slice()));
        proof {
            assert(texts(lines@) =~= texts(before).push(line@));
            if let Some(p) = head_and_body(v@.skip(next as int)) {
                assert(texts(before) + (seq![line@] + p.0) =~= texts(lines@) + p.0);
            }
        }
        at = next;
    }
    assert(v@.skip(at as int) =~= Seq::empty());
    None
}

/// Splits a line of the head at its first colon.
fn read_entry(line: &str) -> (r: Option<(String, String)>)
    ensures
        match r {
            Some(e) => entry_of(line@) == Some((e.0@, e.1@)),
            None => entry_of(line@) is None,
        },
{
    let v: Vec<char> = text::chars_of(line);
    let colon: Vec<char> = vec![':'];
    assert(colon@ =~= seq![':']);
    match text::find(&v, &colon, 0) {
        Some(i) => {
            assert(v@.subrange(0, i as int) =~= v@.take(i as int));
            assert(v@.subrange(i + 1, v@.len() as int) =~= v@.skip(i + 1));
            let key: String = text::string_of(slice_subrange(v.as_slice(), 0, i));
            let value: String = text::string_of(slice_subrange(v.as_slice(), i + 1, v.len()));
            Some((text::trim(&key), text::trim(&value)))
        },
        None => None,
    }
}

/// Looks a key up in the head.
fn get_value(lines: &Vec<String>, key: &str) -> (r: Option<String>)
    ensures
        text::opt_text(r) == head_value(texts(lines@), key@),
{
    let mut i: usize = lines.len();
    let ghost all = texts(lines@);
    assert(all.take(i as int) =~= all);
    while i > 0
        invariant
            i <= lines.len(),
            all == texts(lines@),
            head_value(all, key@) == head_value(all.take(i as int), key@),
        decreases i,
    {
        assert(all.take(i as int).drop_last() =~= all.take(i - 1));
        assert(all.take(i as int).last() == lines@[i - 1]@);
        if let Some(e) = read_entry(&lines[i - 1]) {
            if text::same(&e.0, key) {
                return Some(e.1);
            }
        }
        i -= 1;
    }
    None
}

fn get_string(lines: &Vec<String>, key: &str) -> (r: Option<String>)
    ensures
        text::opt_text(r) == head_string(texts(lines@), key@),
{
    match get_value(lines, key) {
        Some(v) => match read_text(&v) {
            Some(s) => Some(s),
            None => Some(v),
        },
        None => None,
    }
}

fn get_string_or_empty(lines: &Vec<String>, key: &str) -> (r: String)
    ensures
        r@ == head_string_or_empty(texts(lines@), key@),
{
    match get_string(lines, key) {
        Some(s) => s,
        None => String::new(),
    }
}

fn get_list(lines: &Vec<String>, key: &str) -> (r: Vec<String>)
    ensures
        texts(r@) == head_list(texts(lines@), key@),
{
    let empty: Vec<String> = Vec::new();
    assert(texts(empty@) =~= Seq::empty());
    match get_value(lines, key) {
        Some(v) => match read_texts(&v) {
            Some(l) => l,
            None => empty,
        },
        None => empty,
    }
}

fn get_flag(lines: &Vec<String>, key: &str) -> (r: bool)
    ensures
        r == head_flag(texts(lines@), key@),
{
    match get_value(lines, key) {
        Some(v) => text::same(&text::trim(&v), "true"),
        None => false,
    }
}

fn cut_feed(v: Vec<char>) -> (r: Vec<char>)
    ensures
        r@ == without_feed(v@),
{
    let mut v = v;
    if v.len() > 0 && v[v.len() - 1] == '\n' {
        let _ = v.pop();
    }
    v
}

/// Splits a body into the statement and the rationale.
pub fn split_body(body: &str) -> (r: (String, String))
    ensures
        (r.0@, r.1@) == body_parts(body@),
{
    let v: Vec<char> = text::chars_of(body);
    let sep: Vec<char> = text::chars_of(BODY_SEP);
    let mut at: usize = 0;
    while at < v.len()
        invariant
            sep@ == BODY_SEP@,
            v@ == body@,
            at <= v.len(),
            separator(v@, 0) == separator(v@, at as int),
        decreases v.len() - at,
    {
        let (end, next): (usize, usize) = match text::find_break(&v, at) {
            Some(i) => (i, i + 1),
            None => (v.len(), v.len()),
        };
        let bare: usize = bare_end(&v, at, end);
        let line: Vec<char> = range(&v, at, bare);
        if line.len() == sep.len() && text::matches_at(&line, &sep, 0) {
            assert(line@.subrange(0, line@.len() as int) =~= line@);
            let inhalt: Vec<char> = cut_feed(cut_feed(range(&v, 0, at)));
            let begruendung: Vec<char> = cut_feed(range(&v, next, v.len()));
            assert(v@.subrange(0, at as int) =~= v@.take(at as int));
            assert(v@.subrange(next as int, v@.len() as int) =~= v@.skip(next as int));
            return (text::string_of(inhalt.as_slice()), text::string_of(begruendung.as_slice()));
        }
        assert(line@ != BODY_SEP@) by {
            if line@ == BODY_SEP@ {
                assert(line@.subrange(0, line@.len() as int) =~= line@);
            }
        }
        at = next;
    }
    let inhalt: Vec<char> = cut_feed(cut_feed(v));
    (text::string_of(inhalt.as_slice()), String::new())
}

/// Makes a node of a head and a body.
fn read_parts(lines: &Vec<String>, body: &str) -> (r: Option<NodeFile>)
    ensures
        match r {
            Some(f) => node_of_parts(texts(lines@), body@) == Some(f@),
            None => node_of_parts(texts(lines@), body@) is None,
        },
{
    let id: String = match get_string(lines, "id") {
        Some(s) => s,
        None => return None,
    };
    let typ: NodeType = match NodeType::parse(&get_string_or_empty(lines, "typ")) {
        Some(t) => t,
        None => return None,
    };
    let (inhalt, begruendung) = split_body(body);
    let node = Node {
        id,
        typ,
        inhalt,
        begruendung,
        datum: get_string_or_empty(lines, "datum"),
        basis_score: Score { bits: 0 },
        score: Score { bits: 0 },
        status: get_string_or_empty(lines, "status"),
        herkunft: get_string_or_empty(lines, "herkunft"),
        frage_id: get_string(lines, "frage_id"),
        wert: get_string(lines, "wert"),
        quelle_ids: get_list(lines, "quelle_ids"),
        session_id: get_string(lines, "session_id"),
        tags: get_list(lines, "tags"),
        ueberholt: get_flag(lines, "ueberholt"),
        erledigt: get_flag(lines, "erledigt"),
    };
    Some(
        NodeFile {
            node,
            basis_score: get_value(lines, "basis_score"),
            score: get_value(lines, "score"),
        },
    )
}

/// Reads the file of a node. Nothing comes back where the head is missing, has no id,
/// or names no known type.
pub fn parse_node_md(content: &str) -> (r: Option<NodeFile>)
    ensures
        match r {
            Some(f) => node_of_text(content@) == Some(f@),
            None => node_of_text(content@) is None,
        },
{
    let v: Vec<char> = text::chars_of(content);
    let open: Vec<char> = vec!['-', '-', '-', '\n'];
    let open_cr: Vec<char> = vec!['-', '-', '-', '\r', '\n'];
    assert(open@ =~= seq!['-', '-', '-', '\n']);
    assert(open_cr@ =~= seq!['-', '-', '-', '\r', '\n']);
    let from: usize = if text::matches_at(&v, &open, 0) {
        4
    } else if text::matches_at(&v, &open_cr, 0) {
        5
    } else {
        return None;
    };
    let (lines, at): (Vec<String>, usize) = match read_head(&v, from) {
        Some(p) => p,
        None => return None,
    };
    let ghost rest = v@.skip(at as int);
    let blank: Vec<char> = vec!['\n'];
    let blank_cr: Vec<char> = vec!['\r', '\n'];
    assert(blank@ =~= seq!['\n']);
    assert(blank_cr@ =~= seq!['\r', '\n']);
    let body_at: usize = if text::matches_at(&v, &blank_cr, at) {
        assert(rest.subrange(0, 2) =~= v@.subrange(at as int, at + 2));
        at + 2
    } else if text::matches_at(&v, &blank, at) {
        assert(rest.subrange(0, 1) =~= v@.subrange(at as int, at + 1));
        assert(v@.subrange(at as int, at + 1)[0] == '\n');
        at + 1
    } else {
        at
    };
    proof {
        if seq!['\r', '\n'].is_prefix_of(rest) {
            assert(rest.subrange(0, 2) =~= v@.subrange(at as int, at + 2));
        } else if seq!['\n'].is_prefix_of(rest) {
            assert(rest.subrange(0, 1) =~= v@.subrange(at as int, at + 1));
        }
        assert(without_blank(rest) =~= v@.skip(body_at as int));
        assert(v@.subrange(body_at as int, v@.len() as int) =~= v@.skip(body_at as int));
    }
    let body: String = text::string_of(slice_subrange(v.as_slice(), body_at, v.len()));
    read_parts(&lines, &body)
}

// ---- what is written is read back ----

/// A number's text: one line, with no white space at its ends.
pub open spec fn plain(s: Seq<char>) -> bool {
    s.len() > 0 && one_line(s) && !white(s[0]) && !white(s.last())
}

/// An entry that stands in the head on its own line and is found there again.
spec fn sound_entry(e: Entry) -> bool {
    &&& plain(e.1)
    &&& e.0.len() > 0
    &&& forall|i: int|
        0 <= i < e.0.len() ==> #[trigger] e.0[i] != ':' && !white(e.0[i]) && e.0[i] != '-'
}

proof fn lemma_entry(e: Entry)
    requires
        sound_entry(e),
    ensures
        one_line(entry_line(e)),
        without_crs(entry_line(e)) == entry_line(e),
        entry_line(e) != "---"@,
        entry_of(entry_line(e)) == Some(e),
{
    reveal_strlit(": ");
    reveal_strlit("---");
    let l = entry_line(e);
    let n = e.0.len() as int;
    assert(l[0] == e.0[0]);
    assert("---"@[0] == '-');
    assert(l.last() == e.1.last());
    assert(l[n] == ':');
    assert(l[n + 1] == ' ');
    assert forall|i: int| 0 <= i < l.len() implies #[trigger] l[i] != '\n' && l[i] != '\r' by {
        if i < n {
            assert(l[i] == e.0[i]);
            assert(white('\n') && white('\r'));
        } else if i >= n + 2 {
            assert(l[i] == e.1[i - n - 2]);
        }
    }
    assert(text::occurs_at(l, seq![':'], n)) by {
        assert(l.subrange(n, n + 1) =~= seq![':']);
    }
    lemma_colon(l, n, 0);
    assert(l.take(n) =~= e.0);
    lemma_trimmed_same(e.0);
    assert(l.skip(n + 1) =~= seq![' '] + e.1);
    let t = seq![' '] + e.1;
    assert(white(' '));
    assert(t.skip(1) =~= e.1);
    assert(text::trim_front(t) == text::trim_front(e.1));
    lemma_trimmed_same(e.1);
}

proof fn lemma_colon(l: Seq<char>, n: int, from: int)
    requires
        0 <= from <= n < l.len(),
        text::occurs_at(l, seq![':'], n),
        forall|i: int| 0 <= i < n ==> l[i] != ':',
    ensures
        find_from(l, seq![':'], from) == Some(n),
    decreases n - from,
{
    if from < n {
        assert(!text::occurs_at(l, seq![':'], from)) by {
            if text::occurs_at(l, seq![':'], from) {
                assert(l.subrange(from, from + 1)[0] == ':');
            }
        }
        lemma_colon(l, n, from + 1);
    }
}

/// The lines of a list of entries.
spec fn entry_lines(entries: Seq<Entry>) -> Seq<Seq<char>> {
    entries.map_values(|e: Entry| entry_line(e))
}

/// One line before a text is one more line of the head.
proof fn lemma_head_step(l: Seq<char>, t: Seq<char>)
    requires
        one_line(l),
        without_crs(l) == l,
        l != "---"@,
    ensures
        head_and_body(l + seq!['\n'] + t) == (match head_and_body(t) {
            Some(r) => Some((seq![l] + r.0, r.1)),
            None => None,
        }),
{
    let s = l + seq!['\n'] + t;
    assert(s[l.len() as int] == '\n');
    lemma_break_is_first(s, 0, l.len() as int);
    assert(s.take(l.len() as int) =~= l);
    assert(s.skip(l.len() as int + 1) =~= t);
}

proof fn lemma_head_read(entries: Seq<Entry>, t: Seq<char>)
    requires
        forall|i: int| 0 <= i < entries.len() ==> sound_entry(#[trigger] entries[i]),
    ensures
        head_and_body(head_text(entries) + t) == (match head_and_body(t) {
            Some(r) => Some((entry_lines(entries) + r.0, r.1)),
            None => None,
        }),
    decreases entries.len(),
{
    if entries.len() == 0 {
        assert(head_text(entries) + t =~= t);
        if let Some(r) = head_and_body(t) {
            assert(entry_lines(entries) + r.0 =~= r.0);
        }
    } else {
        let before = entries.drop_last();
        let e = entries.last();
        assert(sound_entry(entries[entries.len() - 1]));
        let l = entry_line(e);
        lemma_entry(e);
        let t2 = l + seq!['\n'] + t;
        assert(head_text(entries) + t =~= head_text(before) + t2);
        assert forall|i: int| 0 <= i < before.len() implies sound_entry(#[trigger] before[i]) by {
            assert(before[i] == entries[i]);
        }
        lemma_head_read(before, t2);
        lemma_head_step(l, t);
        if let Some(r) = head_and_body(t) {
            assert(entry_lines(before) + (seq![l] + r.0) =~= entry_lines(entries) + r.0);
        }
    }
}

/// The last value of a key among entries.
spec fn last_value(entries: Seq<Entry>, key: Seq<char>) -> Option<Seq<char>>
    decreases entries.len(),
{
    if entries.len() == 0 {
        None
    } else if entries.last().0 == key {
        Some(entries.last().1)
    } else {
        last_value(entries.drop_last(), key)
    }
}

proof fn lemma_values(entries: Seq<Entry>, key: Seq<char>)
    requires
        forall|i: int| 0 <= i < entries.len() ==> sound_entry(#[trigger] entries[i]),
    ensures
        head_value(entry_lines(entries), key) == last_value(entries, key),
    decreases entries.len(),
{
    if entries.len() > 0 {
        let before = entries.drop_last();
        assert(sound_entry(entries[entries.len() - 1]));
        lemma_entry(entries.last());
        assert(entry_lines(entries).drop_last() =~= entry_lines(before));
        assert(entry_lines(entries).last() == entry_line(entries.last()));
        assert forall|i: int| 0 <= i < before.len() implies sound_entry(#[trigger] before[i]) by {
            assert(before[i] == entries[i]);
        }
        lemma_values(before, key);
    }
}

proof fn lemma_last_value_add(a: Seq<Entry>, b: Seq<Entry>, key: Seq<char>)
    ensures
        last_value(a + b, key) == (match last_value(b, key) {
            Some(v) => Some(v),
            None => last_value(a, key),
        }),
    decreases b.len(),
{
    if b.len() == 0 {
        assert(a + b =~= a);
    } else {
        assert((a + b).drop_last() =~= a + b.drop_last());
        assert((a + b).last() == b.last());
        lemma_last_value_add(a, b.drop_last(), key);
    }
}

/// The keys of the head are words, no two of them the same.
#[verifier::rlimit(40)]
proof fn lemma_keys()
    ensures
        forall|i: int, j: int|
            0 <= i < j < keys().len() ==> #[trigger] keys()[i] != #[trigger] keys()[j],
        forall|i: int|
            0 <= i < keys().len() ==> #[trigger] keys()[i].len() > 0 && forall|k: int|
                0 <= k < keys()[i].len() ==> #[trigger] keys()[i][k] != ':' && !white(keys()[i][k])
                    && keys()[i][k] != '-',
{
    reveal_strlit("id");
    reveal_strlit("typ");
    reveal_strlit("datum");
    reveal_strlit("basis_score");
    reveal_strlit("score");
    reveal_strlit("status");
    reveal_strlit("herkunft");
    reveal_strlit("frage_id");
    reveal_strlit("wert");
    reveal_strlit("session_id");
    reveal_strlit("quelle_ids");
    reveal_strlit("tags");
    reveal_strlit("ueberholt");
    reveal_strlit("erledigt");
    let ks = keys();
    assert(ks[0] == "id"@ && ks[0].len() == 2 && ks[0][0] == 'i');
    assert(ks[1] == "typ"@ && ks[1].len() == 3 && ks[1][0] == 't');
    assert(ks[2] == "datum"@ && ks[2].len() == 5 && ks[2][0] == 'd');
    assert(ks[3] == "basis_score"@ && ks[3].len() == 11 && ks[3][0] == 'b');
    assert(ks[4] == "score"@ && ks[4].len() == 5 && ks[4][0] == 's');
    assert(ks[5] == "status"@ && ks[5].len() == 6 && ks[5][0] == 's');
    assert(ks[6] == "herkunft"@ && ks[6].len() == 8 && ks[6][0] == 'h');
    assert(ks[7] == "frage_id"@ && ks[7].len() == 8 && ks[7][0] == 'f');
    assert(ks[8] == "wert"@ && ks[8].len() == 4 && ks[8][0] == 'w');
    assert(ks[9] == "session_id"@ && ks[9].len() == 10 && ks[9][0] == 's');
    assert(ks[10] == "quelle_ids"@ && ks[10].len() == 10 && ks[10][0] == 'q');
    assert(ks[11] == "tags"@ && ks[11].len() == 4 && ks[11][0] == 't');
    assert(ks[12] == "ueberholt"@ && ks[12].len() == 9 && ks[12][0] == 'u');
    assert(ks[13] == "erledigt"@ && ks[13].len() == 8 && ks[13][0] == 'e');
    assert forall|i: int, j: int| 0 <= i < j < 14 implies #[trigger] ks[i] != #[trigger] ks[j] by {
        assert(ks[i].len() != ks[j].len() || ks[i][0] != ks[j][0]);
    }
}

spec fn keys() -> Seq<Seq<char>> {
    seq![
        "id"@,
        "typ"@,
        "datum"@,
        "basis_score"@,
        "score"@,
        "status"@,
        "herkunft"@,
        "frage_id"@,
        "wert"@,
        "session_id"@,
        "quelle_ids"@,
        "tags"@,
        "ueberholt"@,
        "erledigt"@,
    ]
}

proof fn lemma_flag_text(b: bool)
    ensures
        plain(flag_text(b)),
        (trimmed(flag_text(b)) == "true"@) == b,
{
    reveal_strlit("true");
    reveal_strlit("false");
    assert("true"@.len() != "false"@.len());
    lemma_trimmed_same(flag_text(b));
}

proof fn lemma_entries_sound(n: NodeView, basis: Seq<char>, score: Seq<char>)
    requires
        plain(basis),
        plain(score),
    ensures
        forall|i: int|
            0 <= i < head_entries(n, basis, score).len() ==> sound_entry(
                #[trigger] head_entries(n, basis, score)[i],
            ),
{
    lemma_keys();
    let ks = keys();
    lemma_quoted(n.id);
    lemma_quoted(n.typ.code());
    lemma_quoted(n.datum);
    lemma_quoted(n.status);
    lemma_quoted(n.herkunft);
    lemma_quoted_list(n.quelle_ids);
    lemma_quoted_list(n.tags);
    lemma_flag_text(n.ueberholt);
    lemma_flag_text(n.erledigt);
    assert(ks[0] == "id"@ && ks[1] == "typ"@ && ks[2] == "datum"@ && ks[3] == "basis_score"@
        && ks[4] == "score"@ && ks[5] == "status"@ && ks[6] == "herkunft"@ && ks[7] == "frage_id"@
        && ks[8] == "wert"@ && ks[9] == "session_id"@ && ks[10] == "quelle_ids"@ && ks[11]
        == "tags"@ && ks[12] == "ueberholt"@ && ks[13] == "erledigt"@);
    if let Some(s) = n.frage_id {
        lemma_quoted(s);
        assert(sound_entry(("frage_id"@, quoted(s))));
    }
    if let Some(s) = n.wert {
        lemma_quoted(s);
        assert(sound_entry(("wert"@, quoted(s))));
    }
    if let Some(s) = n.session_id {
        lemma_quoted(s);
        assert(sound_entry(("session_id"@, quoted(s))));
    }
    assert(sound_entry(("id"@, quoted(n.id))));
    assert(sound_entry(("typ"@, quoted(n.typ.code()))));
    assert(sound_entry(("datum"@, quoted(n.datum))));
    assert(sound_entry(("basis_score"@, basis)));
    assert(sound_entry(("score"@, score)));
    assert(sound_entry(("status"@, quoted(n.status))));
    assert(sound_entry(("herkunft"@, quoted(n.herkunft))));
    assert(sound_entry(("quelle_ids"@, quoted_list(n.quelle_ids))));
    assert(sound_entry(("tags"@, quoted_list(n.tags))));
    assert(sound_entry(("ueberholt"@, flag_text(n.ueberholt))));
    assert(sound_entry(("erledigt"@, flag_text(n.erledigt))));
}

/// What each key of the head of a node holds.
proof fn lemma_head_values(n: NodeView, basis: Seq<char>, score: Seq<char>)
    ensures
        ({
            let h = head_entries(n, basis, score);
            &&& last_value(h, "id"@) == Some(quoted(n.id))
            &&& last_value(h, "typ"@) == Some(quoted(n.typ.code()))
            &&& last_value(h, "datum"@) == Some(quoted(n.datum))
            &&& last_value(h, "basis_score"@) == Some(basis)
            &&& last_value(h, "score"@) == Some(score)
            &&& last_value(h, "status"@) == Some(quoted(n.status))
            &&& last_value(h, "herkunft"@) == Some(quoted(n.herkunft))
            &&& last_value(h, "frage_id"@) == (match n.frage_id {
                Some(s) => Some(quoted(s)),
                None => None,
            })
            &&& last_value(h, "wert"@) == (match n.wert {
                Some(s) => Some(quoted(s)),
                None => None,
            })
            &&& last_value(h, "session_id"@) == (match n.session_id {
                Some(s) => Some(quoted(s)),
                None => None,
            })
            &&& last_value(h, "quelle_ids"@) == Some(quoted_list(n.quelle_ids))
            &&& last_value(h, "tags"@) == Some(quoted_list(n.tags))
            &&& last_value(h, "ueberholt"@) == Some(flag_text(n.ueberholt))
            &&& last_value(h, "erledigt"@) == Some(flag_text(n.erledigt))
        }),
{
    lemma_keys();
    let ks = keys();
    assert(ks[0] == "id"@ && ks[1] == "typ"@ && ks[2] == "datum"@ && ks[3] == "basis_score"@
        && ks[4] == "score"@ && ks[5] == "status"@ && ks[6] == "herkunft"@ && ks[7] == "frage_id"@
        && ks[8] == "wert"@ && ks[9] == "session_id"@ && ks[10] == "quelle_ids"@ && ks[11]
        == "tags"@ && ks[12] == "ueberholt"@ && ks[13] == "erledigt"@);
    assert forall|k: int| 0 <= k < 14 implies last_value(
        head_entries(n, basis, score),
        #[trigger] ks[k],
    ) == expected(n, basis, score, k) by {
        lemma_head_value(n, basis, score, k);
    }
    assert(expected(n, basis, score, 0) == Some(quoted(n.id)));
}

/// The value of the k-th key.
spec fn expected(n: NodeView, basis: Seq<char>, score: Seq<char>, k: int) -> Option<Seq<char>> {
    if k == 0 {
        Some(quoted(n.id))
    } else if k == 1 {
        Some(quoted(n.typ.code()))
    } else if k == 2 {
        Some(quoted(n.datum))
    } else if k == 3 {
        Some(basis)
    } else if k == 4 {
        Some(score)
    } else if k == 5 {
        Some(quoted(n.status))
    } else if k == 6 {
        Some(quoted(n.herkunft))
    } else if k == 7 {
        opt_quoted(n.frage_id)
    } else if k == 8 {
        opt_quoted(n.wert)
    } else if k == 9 {
        opt_quoted(n.session_id)
    } else if k == 10 {
        Some(quoted_list(n.quelle_ids))
    } else if k == 11 {
        Some(quoted_list(n.tags))
    } else if k == 12 {
        Some(flag_text(n.ueberholt))
    } else {
        Some(flag_text(n.erledigt))
    }
}

spec fn opt_quoted(o: Option<Seq<char>>) -> Option<Seq<char>> {
    match o {
        Some(s) => Some(quoted(s)),
        None => None,
    }
}

proof fn lemma_head_value(n: NodeView, basis: Seq<char>, score: Seq<char>, k: int)
    requires
        0 <= k < 14,
    ensures
        last_value(head_entries(n, basis, score), keys()[k]) == expected(n, basis, score, k),
{
    lemma_keys();
    let ks = keys();
    let key = ks[k];
    let a = seq![
        (ks[0], quoted(n.id)),
        (ks[1], quoted(n.typ.code())),
        (ks[2], quoted(n.datum)),
        (ks[3], basis),
        (ks[4], score),
        (ks[5], quoted(n.status)),
        (ks[6], quoted(n.herkunft)),
    ];
    let b = opt_entry(ks[7], n.frage_id);
    let c = opt_entry(ks[8], n.wert);
    let d = opt_entry(ks[9], n.session_id);
    let e = seq![
        (ks[10], quoted_list(n.quelle_ids)),
        (ks[11], quoted_list(n.tags)),
        (ks[12], flag_text(n.ueberholt)),
        (ks[13], flag_text(n.erledigt)),
    ];
    assert(head_entries(n, basis, score) =~= a + b + c + d + e);
    lemma_last_value_add(a + b + c + d, e, key);
    lemma_last_value_add(a + b + c, d, key);
    lemma_last_value_add(a + b, c, key);
    lemma_last_value_add(a, b, key);
    lemma_last_small(e, key);
    lemma_last_small(d, key);
    lemma_last_small(c, key);
    lemma_last_small(b, key);
    lemma_last_small(a, key);
}

/// In entries with different keys, the value of a key is the one beside it.
proof fn lemma_last_small(s: Seq<Entry>, key: Seq<char>)
    ensures
        (forall|i: int| 0 <= i < s.len() ==> (#[trigger] s[i]).0 != key) ==> last_value(s, key)
            is None,
        forall|j: int|
            0 <= j < s.len() && (#[trigger] s[j]).0 == key && (forall|i: int|
                j < i < s.len() ==> (#[trigger] s[i]).0 != key) ==> last_value(s, key) == Some(
                s[j].1,
            ),
    decreases s.len(),
{
    if s.len() > 0 {
        let t = s.drop_last();
        lemma_last_small(t, key);
        if forall|i: int| 0 <= i < s.len() ==> (#[trigger] s[i]).0 != key {
            assert forall|i: int| 0 <= i < t.len() implies (#[trigger] t[i]).0 != key by {
                assert(t[i] == s[i]);
            }
            assert(s[s.len() - 1].0 != key);
        }
        assert forall|j: int|
            0 <= j < s.len() && (#[trigger] s[j]).0 == key && (forall|i: int|
                j < i < s.len() ==> (#[trigger] s[i]).0 != key) implies last_value(s, key) == Some(
            s[j].1,
        ) by {
            if j < s.len() - 1 {
                assert(s[s.len() - 1].0 != key);
                assert(t[j] == s[j]);
                assert forall|i: int| j < i < t.len() implies (#[trigger] t[i]).0 != key by {
                    assert(t[i] == s[i]);
                }
            }
        }
    }
}

proof fn lemma_separator(n: NodeView, from: int)
    requires
        0 <= from <= n.inhalt.len(),
        separator(n.inhalt, from) is None,
    ensures
        separator(body_text(n), from) == Some(
            (
                n.inhalt.len() as int + 2,
                n.inhalt.len() as int + 2 + BODY_SEP@.len() as int + 1,
            ),
        ),
    decreases n.inhalt.len() - from,
{
    let s = body_text(n);
    let h = n.inhalt;
    let m = h.len() as int;
    let k = BODY_SEP@.len() as int;
    lemma_sep();
    assert(s[m] == '\n' && s[m + 1] == '\n');
    assert(s.subrange(m + 2, m + 2 + k) =~= BODY_SEP@);
    assert(s[m + 2 + k] == '\n');
    assert forall|i: int| 0 <= i < m implies s[i] == h[i] by {}
    lemma_first_break(h, from);
    match first_break(h, from) {
        Some(i) => {
            lemma_break_is_first(s, from, i);
            assert(s.subrange(from, i) =~= h.subrange(from, i));
            lemma_separator(n, i + 1);
        },
        None => {
            lemma_break_is_first(s, from, m);
            assert(s.subrange(from, m) =~= h.subrange(from, m));
            if from < m {
                assert(without_crs(s.subrange(from, m)) != BODY_SEP@);
            } else {
                assert(s.subrange(from, m) =~= Seq::empty());
                assert(without_crs(s.subrange(from, m)) != BODY_SEP@);
            }
            lemma_break_is_first(s, m + 1, m + 1);
            assert(s.subrange(m + 1, m + 1) =~= Seq::empty());
            assert(separator(s, m + 1) == separator(s, m + 2));
            assert forall|j: int| m + 2 <= j < m + 2 + k implies s[j] != '\n' by {
                assert(s[j] == s.subrange(m + 2, m + 2 + k)[j - m - 2]);
            }
            lemma_break_is_first(s, m + 2, m + 2 + k);
        },
    }
}

/// The separator is one line without a carriage return at its end.
proof fn lemma_sep()
    ensures
        BODY_SEP@.len() > 0,
        forall|i: int| 0 <= i < BODY_SEP@.len() ==> BODY_SEP@[i] != '\n',
        without_crs(BODY_SEP@) == BODY_SEP@,
{
    reveal_strlit("<!-- begründung -->");
    assert(BODY_SEP@ == "<!-- begründung -->"@);
    assert(BODY_SEP@.last() == '>');
}

/// The statement and the rationale are read back.
proof fn lemma_body_read(n: NodeView)
    requires
        separator(n.inhalt, 0) is None,
    ensures
        body_parts(body_text(n)) == (n.inhalt, n.begruendung),
{
    lemma_separator(n, 0);
    let s = body_text(n);
    let m = n.inhalt.len() as int;
    let a = s.take(m + 2);
    assert(a =~= n.inhalt + seq!['\n', '\n']);
    assert(without_feed(a) =~= n.inhalt + seq!['\n']);
    assert(without_feed(n.inhalt + seq!['\n']) =~= n.inhalt);
    let b = s.skip(m + 2 + BODY_SEP@.len() as int + 1);
    assert(b =~= n.begruendung + seq!['\n']);
    assert(without_feed(b) =~= n.begruendung);
}

/// A file is read as its head and its body.
proof fn lemma_file_read(n: NodeView, basis: Seq<char>, score: Seq<char>)
    requires
        plain(basis),
        plain(score),
    ensures
        node_of_text(node_text(n, basis, score)) == node_of_parts(
            entry_lines(head_entries(n, basis, score)),
            body_text(n),
        ),
{
    let s = node_text(n, basis, score);
    let entries = head_entries(n, basis, score);
    let open = seq!['-', '-', '-', '\n'];
    let tail = seq!['-', '-', '-', '\n'] + (seq!['\n'] + body_text(n));
    assert(s =~= open + (head_text(entries) + tail));
    assert(s.take(4) =~= open);
    assert(s.skip(4) =~= head_text(entries) + tail);
    lemma_entries_sound(n, basis, score);
    lemma_head_read(entries, tail);
    reveal_strlit("---");
    lemma_break_is_first(tail, 0, 3);
    assert(tail.take(3) =~= "---"@);
    assert(without_crs("---"@) == "---"@);
    let body = seq!['\n'] + body_text(n);
    assert(tail.skip(4) =~= body);
    assert(entry_lines(entries) + Seq::<Seq<char>>::empty() =~= entry_lines(entries));
    assert(body[0] == '\n');
    assert(body.take(1) =~= seq!['\n']);
    assert(!seq!['\r', '\n'].is_prefix_of(body)) by {
        if seq!['\r', '\n'].is_prefix_of(body) {
            assert(body.take(2)[0] == '\r');
        }
    }
    assert(body.skip(1) =~= body_text(n));
}

proof fn lemma_code(t: NodeType)
    ensures
        NodeType::of_code(lowercase(trimmed(t.code()))) == Some(t),
{
    reveal_strlit("decision");
    reveal_strlit("insight");
    reveal_strlit("fact");
    reveal_strlit("observation");
    reveal_strlit("research");
    reveal_strlit("hypothesis");
    reveal_strlit("entscheidung");
    reveal_strlit("erkenntnis");
    reveal_strlit("fakt");
    reveal_strlit("beobachtung");
    reveal_strlit("recherche");
    reveal_strlit("vermutung");
    lemma_trimmed_same(t.code());
    text::lemma_lowercase_same(t.code());
    assert("fact"@[2] != "fakt"@[2]);
    assert("decision"@[0] != "research"@[0]);
    assert("observation"@[0] != "beobachtung"@[0]);
}

/// The file as a whole, read back.
proof fn lemma_round_trip(n: NodeView, basis: Seq<char>, score: Seq<char>)
    requires
        plain(basis),
        plain(score),
        separator(n.inhalt, 0) is None,
        texts_read_back(n),
    ensures
        node_of_text(node_text(n, basis, score)) == Some(read_back(n, basis, score)),
{
    let entries = head_entries(n, basis, score);
    let lines = entry_lines(entries);
    lemma_file_read(n, basis, score);
    lemma_entries_sound(n, basis, score);
    lemma_head_values(n, basis, score);
    lemma_values(entries, "id"@);
    lemma_values(entries, "typ"@);
    lemma_values(entries, "datum"@);
    lemma_values(entries, "basis_score"@);
    lemma_values(entries, "score"@);
    lemma_values(entries, "status"@);
    lemma_values(entries, "herkunft"@);
    lemma_values(entries, "frage_id"@);
    lemma_values(entries, "wert"@);
    lemma_values(entries, "session_id"@);
    lemma_values(entries, "quelle_ids"@);
    lemma_values(entries, "tags"@);
    lemma_values(entries, "ueberholt"@);
    lemma_values(entries, "erledigt"@);
    lemma_flag_text(n.ueberholt);
    lemma_flag_text(n.erledigt);
    lemma_code(n.typ);
    lemma_body_read(n);
    assert(node_of_parts(lines, body_text(n))->0 =~= read_back(n, basis, score));
}

/// What reading a written node gives: the node, with the texts of its scores.
pub open spec fn read_back(n: NodeView, basis: Seq<char>, score: Seq<char>) -> NodeFileView {
    NodeFileView {
        node: NodeView { basis_score: Score { bits: 0 }, score: Score { bits: 0 }, ..n },
        basis_score: Some(basis),
        score: Some(score),
    }
}

fn push_entry(out: &mut String, key: &str, value: &str, Ghost(entries): Ghost<Seq<Entry>>)
    requires
        old(out)@ == seq!['-', '-', '-', '\n'] + head_text(entries),
    ensures
        final(out)@ == seq!['-', '-', '-', '\n'] + head_text(entries.push((key@, value@))),
{
    out.append(key);
    out.append(": ");
    out.append(value);
    out.append("\n");
    proof {
        reveal_strlit("\n");
        assert("\n"@ =~= seq!['\n']);
        let all = entries.push((key@, value@));
        assert(all.drop_last() =~= entries);
        assert(out@ =~= seq!['-', '-', '-', '\n'] + head_text(all));
    }
}

fn flag_word(b: bool) -> (r: &'static str)
    ensures
        r@ == flag_text(b),
{
    if b {
        "true"
    } else {
        "false"
    }
}

/// The texts of a node can be read back from the head.
spec fn texts_read_back(n: NodeView) -> bool {
    &&& text_of_json(quoted(n.id)) == Some(n.id)
    &&& text_of_json(quoted(n.typ.code())) == Some(n.typ.code())
    &&& text_of_json(quoted(n.datum)) == Some(n.datum)
    &&& text_of_json(quoted(n.status)) == Some(n.status)
    &&& text_of_json(quoted(n.herkunft)) == Some(n.herkunft)
    &&& n.frage_id matches Some(s) ==> text_of_json(quoted(s)) == Some(s)
    &&& n.wert matches Some(s) ==> text_of_json(quoted(s)) == Some(s)
    &&& n.session_id matches Some(s) ==> text_of_json(quoted(s)) == Some(s)
    &&& texts_of_json(quoted_list(n.quelle_ids)) == Some(n.quelle_ids)
    &&& texts_of_json(quoted_list(n.tags)) == Some(n.tags)
}

/// Writes the head of a node.
#[verifier::rlimit(60)]
fn write_head(node: &Node, basis_score: &str, score: &str) -> (out: String)
    ensures
        out@ == seq!['-', '-', '-', '\n'] + head_text(
            head_entries(node@, basis_score@, score@),
        ),
        texts_read_back(node@),
{
    let ghost n = node@;
    let mut out: String = "---\n".to_owned();
    let ghost mut es: Seq<Entry> = Seq::empty();
    proof {
        reveal_strlit("---\n");
        assert(out@ =~= seq!['-', '-', '-', '\n'] + head_text(es));
    }
    let id: String = write_text(&node.id);
    push_entry(&mut out, "id", &id, Ghost(es));
    proof {
        es = es.push(("id"@, id@));
    }
    let typ: String = write_text(node.typ.as_code());
    push_entry(&mut out, "typ", &typ, Ghost(es));
    proof {
        es = es.push(("typ"@, typ@));
    }
    let datum: String = write_text(&node.datum);
    push_entry(&mut out, "datum", &datum, Ghost(es));
    proof {
        es = es.push(("datum"@, datum@));
    }
    push_entry(&mut out, "basis_score", basis_score, Ghost(es));
    proof {
        es = es.push(("basis_score"@, basis_score@));
    }
    push_entry(&mut out, "score", score, Ghost(es));
    proof {
        es = es.push(("score"@, score@));
    }
    let status: String = write_text(&node.status);
    push_entry(&mut out, "status", &status, Ghost(es));
    proof {
        es = es.push(("status"@, status@));
    }
    let herkunft: String = write_text(&node.herkunft);
    push_entry(&mut out, "herkunft", &herkunft, Ghost(es));
    proof {
        es = es.push(("herkunft"@, herkunft@));
    }
    let ghost first = seq![
        ("id"@, quoted(n.id)),
        ("typ"@, quoted(n.typ.code())),
        ("datum"@, quoted(n.datum)),
        ("basis_score"@, basis_score@),
        ("score"@, score@),
        ("status"@, quoted(n.status)),
        ("herkunft"@, quoted(n.herkunft)),
    ];
    assert(es =~= first);
    let ghost fixed = es;
    if let Some(s) = &node.frage_id {
        let t: String = write_text(s);
        push_entry(&mut out, "frage_id", &t, Ghost(es));
        proof {
            es = es.push(("frage_id"@, t@));
        }
    }
    assert(es =~= fixed + opt_entry("frage_id"@, n.frage_id));
    let ghost fixed = es;
    if let Some(s) = &node.wert {
        let t: String = write_text(s);
        push_entry(&mut out, "wert", &t, Ghost(es));
        proof {
            es = es.push(("wert"@, t@));
        }
    }
    assert(es =~= fixed + opt_entry("wert"@, n.wert));
    let ghost fixed = es;
    if let Some(s) = &node.session_id {
        let t: String = write_text(s);
        push_entry(&mut out, "session_id", &t, Ghost(es));
        proof {
            es = es.push(("session_id"@, t@));
        }
    }
    assert(es =~= fixed + opt_entry("session_id"@, n.session_id));
    let ghost fixed = es;
    let quelle_ids: String = write_texts(&node.quelle_ids);
    push_entry(&mut out, "quelle_ids", &quelle_ids, Ghost(es));
    proof {
        es = es.push(("quelle_ids"@, quelle_ids@));
    }
    let tags: String = write_texts(&node.tags);
    push_entry(&mut out, "tags", &tags, Ghost(es));
    proof {
        es = es.push(("tags"@, tags@));
    }
    push_entry(&mut out, "ueberholt", flag_word(node.ueberholt), Ghost(es));
    proof {
        es = es.push(("ueberholt"@, flag_text(n.ueberholt)));
    }
    push_entry(&mut out, "erledigt", flag_word(node.erledigt), Ghost(es));
    proof {
        es = es.push(("erledigt"@, flag_text(n.erledigt)));
        assert(es =~= fixed + seq![
            ("quelle_ids"@, quoted_list(n.quelle_ids)),
            ("tags"@, quoted_list(n.tags)),
            ("ueberholt"@, flag_text(n.ueberholt)),
            ("erledigt"@, flag_text(n.erledigt)),
        ]);
    }
    out
}

/// Writes the file of a node, with the decimal texts of its scores. Reading the file
/// gives every field back, unless a line of the statement is the separator.
pub fn serialize_node_md(node: &Node, basis_score: &str, score: &str) -> (r: String)
    ensures
        r@ == node_text(node@, basis_score@, score@),
        plain(basis_score@) && plain(score@) && separator(node.inhalt@, 0) is None ==> node_of_text(
            r@,
        ) == Some(read_back(node@, basis_score@, score@)),
{
    let ghost n = node@;
    let mut out: String = write_head(node, basis_score, score);
    out.append("---\n\n");
    out.append(&node.inhalt);
    out.append("\n\n");
    out.append(BODY_SEP);
    out.append("\n");
    out.append(&node.begruendung);
    out.append("\n");
    proof {
        reveal_strlit("---\n\n");
        reveal_strlit("\n\n");
        reveal_strlit("\n");
        assert("---\n\n"@ =~= seq!['-', '-', '-', '\n', '\n']);
        assert("\n\n"@ =~= seq!['\n', '\n']);
        assert("\n"@ =~= seq!['\n']);
        assert(out@ =~= node_text(n, basis_score@, score@));
        if plain(basis_score@) && plain(score@) && separator(node.inhalt@, 0) is None {
            lemma_round_trip(n, basis_score@, score@);
        }
    }
    out
}

} // verus!
