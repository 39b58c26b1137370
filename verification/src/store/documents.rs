//! Documents of the project, which nodes may cite.

use vstd::prelude::*;
use vstd::slice::slice_subrange;

use crate::store::model::{quelle_views, Quelle, QuelleView};
use crate::text;
use crate::text::{clipped, less, lines, lowercase, opt_text, texts, trimmed};

verus! {

/// The folders that are not the user's.
pub open spec fn internal_dirs() -> Seq<Seq<char>> {
    seq![
        "sessions"@,
        "knowledge"@,
        "session-types"@,
        "tasks"@,
        "agent-teams"@,
        "build"@,
        "rewind"@,
    ]
}

/// Whether a folder is searched for documents.
pub fn is_document_dir(folder: &str) -> (r: bool)
    ensures
        r == (folder@.len() > 0 && !internal_dirs().contains(folder@)),
{
    let name: String = folder.to_owned();
    let internal: Vec<String> = vec![
        "sessions".to_owned(),
        "knowledge".to_owned(),
        "session-types".to_owned(),
        "tasks".to_owned(),
        "agent-teams".to_owned(),
        "build".to_owned(),
        "rewind".to_owned(),
    ];
    assert(texts(internal@) =~= internal_dirs());
    !folder.is_empty() && !text::one_of(&name, &internal)
}

/// The kind of document for a folder's name in lower case.
pub open spec fn art_of(folder: Seq<char>) -> Seq<char> {
    if folder == "features"@ || folder == "feature"@ {
        "feature"@
    } else if folder == "adr"@ || folder == "adrs"@ || folder == "decisions"@ {
        "adr"@
    } else if folder == "specs"@ || folder == "spec"@ {
        "spec"@
    } else if folder == "notes"@ || folder == "note"@ {
        "note"@
    } else if folder == "docs"@ || folder == "doc"@ || folder == "documentation"@ {
        "doc"@
    } else {
        folder
    }
}

/// The kind of document for a folder's name in lower case.
pub fn art_from_lower(folder: &str) -> (r: String)
    ensures
        r@ == art_of(folder@),
{
    if text::same(folder, "features") || text::same(folder, "feature") {
        "feature".to_owned()
    } else if text::same(folder, "adr") || text::same(folder, "adrs") || text::same(
        folder,
        "decisions",
    ) {
        "adr".to_owned()
    } else if text::same(folder, "specs") || text::same(folder, "spec") {
        "spec".to_owned()
    } else if text::same(folder, "notes") || text::same(folder, "note") {
        "note".to_owned()
    } else if text::same(folder, "docs") || text::same(folder, "doc") || text::same(
        folder,
        "documentation",
    ) {
        "doc".to_owned()
    } else {
        folder.to_owned()
    }
}

/// The kind of the documents in a folder.
pub fn doc_art(folder: &str) -> (r: String)
    ensures
        r@ == art_of(lowercase(folder@)),
{
    art_from_lower(&text::to_lowercase(folder))
}

/// A text without the hash signs that it begins with.
pub open spec fn without_hashes(s: Seq<char>) -> Seq<char>
    decreases s.len(),
{
    if s.len() > 0 && s[0] == '#' {
        without_hashes(s.skip(1))
    } else {
        s
    }
}

/// The heading that a line is: behind its hash signs, and not blank.
pub open spec fn heading(line: Seq<char>) -> Option<Seq<char>> {
    let t = trimmed(line);
    if t.len() > 0 && t[0] == '#' {
        let h = trimmed(without_hashes(t));
        if h.len() > 0 {
            Some(clipped(h, 120))
        } else {
            None
        }
    } else {
        None
    }
}

/// The first heading from the line at `from` on, within the first 40 lines.
pub open spec fn first_heading(all: Seq<Seq<char>>, from: int) -> Option<Seq<char>>
    decreases 40 - from,
{
    if from < 0 || from >= 40 || from >= all.len() {
        None
    } else {
        match heading(all[from]) {
            Some(h) => Some(h),
            None => first_heading(all, from + 1),
        }
    }
}

fn read_heading(line: &str) -> (r: Option<String>)
    ensures
        opt_text(r) == heading(line@),
{
    let t: String = text::trim(line);
    let v: Vec<char> = text::chars_of(&t);
    if v.len() == 0 || v[0] != '#' {
        return None;
    }
    let mut i: usize = 0;
    assert(v@.skip(0) =~= v@);
    while i < v.len() && v[i] == '#'
        invariant
            i <= v.len(),
            without_hashes(v@) == without_hashes(v@.skip(i as int)),
        decreases v.len() - i,
    {
        assert(v@.skip(i as int).skip(1) =~= v@.skip(i + 1));
        i += 1;
    }
    assert(v@.subrange(i as int, v@.len() as int) =~= v@.skip(i as int));
    let h: String = text::trim(&text::string_of(slice_subrange(v.as_slice(), i, v.len())));
    if h.as_str().is_empty() {
        return None;
    }
    let w: Vec<char> = text::chars_of(&h);
    if w.len() <= 120 {
        Some(h)
    } else {
        assert(w@.subrange(0, 120) =~= w@.take(120));
        Some(text::string_of(slice_subrange(w.as_slice(), 0, 120)))
    }
}

/// The title of a document: its first heading, if there is one near its beginning.
pub fn doc_title(content: &str) -> (r: Option<String>)
    ensures
        opt_text(r) == first_heading(lines(content@), 0),
{
    let all: Vec<String> = text::split_lines(content);
    let ghost views = texts(all@);
    let mut i: usize = 0;
    while i < 40 && i < all.len()
        invariant
            views == texts(all@),
            views == lines(content@),
            i <= 40,
            i <= all.len(),
            first_heading(views, 0) == first_heading(views, i as int),
        decreases 40 - i,
    {
        assert(views[i as int] == all@[i as int]@);
        if let Some(h) = read_heading(&all[i]) {
            return Some(h);
        }
        i += 1;
    }
    None
}

/// A path with forward slashes.
pub open spec fn slashed(s: Seq<char>) -> Seq<char> {
    s.map_values(
        |c: char|
            if c == '\\' {
                '/'
            } else {
                c
            },
    )
}

/// The document at a path: its id is the path; without a heading it is titled after its
/// file.
pub open spec fn document(
    path: Seq<char>,
    stem: Seq<char>,
    content: Option<Seq<char>>,
    art: Seq<char>,
) -> QuelleView {
    QuelleView {
        id: slashed(path),
        pfad: slashed(path),
        titel: (match content {
            Some(c) => first_heading(lines(c), 0),
            None => None,
        }).unwrap_or(stem),
        art,
    }
}

/// Describes the document at a path below the project. A file that could not be read has
/// no content.
pub fn describe_document(path: &str, stem: &str, content: Option<&str>, art: &str) -> (r: Quelle)
    ensures
        r@ == document(path@, stem@, crate::config::opt_str(content), art@),
{
    let v: Vec<char> = text::chars_of(path);
    let mut out: Vec<char> = Vec::new();
    let mut i: usize = 0;
    while i < v.len()
        invariant
            i <= v.len(),
            out.len() == i,
            forall|k: int|
                0 <= k < i ==> #[trigger] out@[k] == (if v@[k] == '\\' {
                    '/'
                } else {
                    v@[k]
                }),
        decreases v.len() - i,
    {
        out.push(
            if v[i] == '\\' {
                '/'
            } else {
                v[i]
            },
        );
        i += 1;
    }
    assert(out@ =~= slashed(v@));
    let pfad: String = text::string_of(out.as_slice());
    let found: Option<String> = match content {
        Some(c) => doc_title(c),
        None => None,
    };
    let titel: String = match found {
        Some(t) => t,
        None => stem.to_owned(),
    };
    Quelle { id: pfad.clone(), pfad, titel, art: art.to_owned() }
}

// ---- the order of documents ----

/// Documents with one more at its place by path, behind those of the same path.
pub open spec fn placed(s: Seq<QuelleView>, x: QuelleView) -> Seq<QuelleView>
    decreases s.len(),
{
    if s.len() > 0 && less(x.pfad, s.last().pfad) {
        placed(s.drop_last(), x).push(s.last())
    } else {
        s.push(x)
    }
}

/// Documents in the order of their paths.
pub open spec fn by_path(s: Seq<QuelleView>) -> Seq<QuelleView>
    decreases s.len(),
{
    if s.len() == 0 {
        s
    } else {
        placed(by_path(s.drop_last()), s.last())
    }
}

fn place(out: &mut Vec<Quelle>, x: Quelle)
    ensures
        quelle_views(final(out)@) == placed(quelle_views(old(out)@), x@),
{
    let ghost s = quelle_views(out@);
    let mut i: usize = out.len();
    assert(s.take(i as int) =~= s);
    assert(placed(s, x@) =~= placed(s.take(i as int), x@) + s.skip(i as int));
    while i > 0 && text::is_less(&x.pfad, &out[i - 1].pfad)
        invariant
            i <= out.len(),
            s == quelle_views(out@),
            placed(s, x@) == placed(s.take(i as int), x@) + s.skip(i as int),
        decreases i,
    {
        proof {
            let t = s.take(i as int);
            assert(s[i - 1] == out@[i - 1]@);
            assert(t.last() == s[i - 1]);
            assert(t.drop_last() =~= s.take(i - 1));
            assert(placed(t, x@) == placed(s.take(i - 1), x@).push(s[i - 1]));
            assert(placed(s, x@) =~= placed(s.take(i - 1), x@) + s.skip(i - 1));
        }
        i -= 1;
    }
    proof {
        let t = s.take(i as int);
        if i > 0 {
            assert(s[i - 1] == out@[i - 1]@);
            assert(t.last() == s[i - 1]);
        }
        assert(placed(t, x@) == t.push(x@));
    }
    let ghost before = out@;
    out.insert(i, x);
    assert(quelle_views(out@) =~= s.take(i as int).push(x@) + s.skip(i as int));
}

/// Puts documents in the order of their paths.
pub fn sort_documents(docs: Vec<Quelle>) -> (r: Vec<Quelle>)
    ensures
        quelle_views(r@) == by_path(quelle_views(docs@)),
{
    let ghost all = quelle_views(docs@);
    let mut out: Vec<Quelle> = Vec::new();
    let mut i: usize = 0;
    assert(quelle_views(out@) =~= by_path(all.take(0)));
    while i < docs.len()
        invariant
            all == quelle_views(docs@),
            i <= docs.len(),
            quelle_views(out@) == by_path(all.take(i as int)),
        decreases docs.len() - i,
    {
        assert(all.take(i + 1).drop_last() =~= all.take(i as int));
        assert(all.take(i + 1).last() == docs@[i as int]@);
        place(&mut out, docs[i].copy());
        i += 1;
    }
    assert(all.take(all.len() as int) =~= all);
    out
}

/// In the order by path no document stands behind one with a later path, and none is lost
/// or added.
pub proof fn documents_are_sorted(s: Seq<QuelleView>)
    ensures
        forall|i: int, k: int|
            0 <= i < k < by_path(s).len() ==> !less(
                (#[trigger] by_path(s)[k]).pfad,
                (#[trigger] by_path(s)[i]).pfad,
            ),
        by_path(s).to_multiset() == s.to_multiset(),
    decreases s.len(),
{
    if s.len() > 0 {
        let t = s.drop_last();
        documents_are_sorted(t);
        lemma_placed(by_path(t), s.last());
        assert(s =~= t.push(s.last()));
        t.to_multiset_ensures();
    }
}

proof fn lemma_placed(s: Seq<QuelleView>, x: QuelleView)
    requires
        forall|i: int, k: int|
            0 <= i < k < s.len() ==> !less((#[trigger] s[k]).pfad, (#[trigger] s[i]).pfad),
    ensures
        placed(s, x).len() == s.len() + 1,
        forall|i: int, k: int|
            0 <= i < k < placed(s, x).len() ==> !less(
                (#[trigger] placed(s, x)[k]).pfad,
                (#[trigger] placed(s, x)[i]).pfad,
            ),
        forall|i: int|
            0 <= i < placed(s, x).len() ==> (#[trigger] placed(s, x)[i]) == x || s.contains(
                placed(s, x)[i],
            ),
        placed(s, x).to_multiset() == s.to_multiset().insert(x),
    decreases s.len(),
{
    let p = placed(s, x);
    if s.len() > 0 && less(x.pfad, s.last().pfad) {
        let t = s.drop_last();
        let q = placed(t, x);
        lemma_placed(t, x);
        assert forall|i: int, k: int| 0 <= i < k < p.len() implies !less(
            (#[trigger] p[k]).pfad,
            (#[trigger] p[i]).pfad,
        ) by {
            if k < q.len() {
                assert(p[k] == q[k] && p[i] == q[i]);
            } else {
                assert(p[k] == s.last());
                assert(p[i] == q[i]);
                if q[i] == x {
                    text::lemma_less_total(x.pfad, s.last().pfad);
                } else {
                    assert(t.contains(q[i]));
                    let j = choose|j: int| 0 <= j < t.len() && t[j] == q[i];
                    assert(s[j] == q[i]);
                    assert(!less(s[s.len() - 1].pfad, s[j].pfad));
                }
            }
        }
        assert forall|i: int| 0 <= i < p.len() implies (#[trigger] p[i]) == x || s.contains(
            p[i],
        ) by {
            if i < q.len() {
                assert(p[i] == q[i]);
                if q[i] != x {
                    let j = choose|j: int| 0 <= j < t.len() && t[j] == q[i];
                    assert(s[j] == q[i]);
                }
            } else {
                assert(s[s.len() - 1] == p[i]);
            }
        }
        q.to_multiset_ensures();
        t.to_multiset_ensures();
        assert(s =~= t.push(s.last()));
        assert(p.to_multiset() =~= s.to_multiset().insert(x));
    } else {
        assert forall|i: int, k: int| 0 <= i < k < p.len() implies !less(
            (#[trigger] p[k]).pfad,
            (#[trigger] p[i]).pfad,
        ) by {
            if k == s.len() {
                assert(p[i] == s[i]);
                if less(x.pfad, s[i].pfad) {
                    let l = s[s.len() - 1];
                    assert(!less(x.pfad, l.pfad));
                    if i < s.len() - 1 {
                        assert(!less(l.pfad, s[i].pfad));
                    }
                    text::lemma_less_total(l.pfad, s[i].pfad);
                    if l.pfad != s[i].pfad {
                        text::lemma_less_trans(x.pfad, s[i].pfad, l.pfad);
                    }
                }
            } else {
                assert(p[k] == s[k] && p[i] == s[i]);
            }
        }
        assert forall|i: int| 0 <= i < p.len() implies (#[trigger] p[i]) == x || s.contains(
            p[i],
        ) by {
            if i < s.len() {
                assert(s[i] == p[i]);
            }
        }
        s.to_multiset_ensures();
    }
}

} // verus!
