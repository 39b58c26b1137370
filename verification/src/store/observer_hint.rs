//! What a session has already been told.

use vstd::prelude::*;
use vstd::string::StringExecFns;

use crate::text;
use crate::text::{less, texts, trimmed};

verus! {

/// What a session has already been told.
#[derive(Debug, Clone, PartialEq)]
pub struct HintState {
    /// The nodes that it was pointed at.
    pub informed_node_ids: Vec<String>,
    /// The date up to which changes were reported.
    pub last_informed_datum: String,
}

#[verifier::ext_equal]
pub struct HintView {
    pub informed_node_ids: Seq<Seq<char>>,
    pub last_informed_datum: Seq<char>,
}

impl View for HintState {
    type V = HintView;

    open spec fn view(&self) -> HintView {
        HintView {
            informed_node_ids: texts(self.informed_node_ids@),
            last_informed_datum: self.last_informed_datum@,
        }
    }
}

/// The state of a session that was told nothing.
pub open spec fn told_nothing() -> HintView {
    HintView { informed_node_ids: Seq::empty(), last_informed_datum: Seq::empty() }
}

impl Default for HintState {
    fn default() -> (r: HintState)
        ensures
            r@ == told_nothing(),
    {
        let r = HintState { informed_node_ids: Vec::new(), last_informed_datum: String::new() };
        assert(texts(r.informed_node_ids@) =~= Seq::empty());
        r
    }
}

/// The later of two dates.
pub open spec fn later(a: Seq<char>, b: Seq<char>) -> Seq<char> {
    if less(a, b) {
        b
    } else {
        a
    }
}

/// The state after the session was pointed at a node.
pub open spec fn informed(s: HintView, id: Seq<char>, datum: Seq<char>) -> HintView {
    HintView {
        informed_node_ids: if s.informed_node_ids.contains(id) {
            s.informed_node_ids
        } else {
            s.informed_node_ids.push(id)
        },
        last_informed_datum: later(s.last_informed_datum, datum),
    }
}

impl HintState {
    /// Notes that the session was pointed at a node: its id once, and its date where it
    /// is the latest.
    pub fn mark_informed(&mut self, node_id: &str, datum: &str)
        ensures
            final(self)@ == informed(old(self)@, node_id@, datum@),
    {
        let ghost before = self@;
        let id: String = node_id.to_owned();
        if !text::one_of(&id, &self.informed_node_ids) {
            self.informed_node_ids.push(id);
            assert(texts(self.informed_node_ids@) =~= before.informed_node_ids.push(node_id@));
        }
        if text::is_less(&self.last_informed_datum, datum) {
            self.last_informed_datum = datum.to_owned();
        }
    }
}

/// The file of pending hints after one more: a line for it, unless it is blank.
pub open spec fn appended(pending: Seq<char>, hint: Seq<char>) -> Seq<char> {
    if trimmed(hint).len() == 0 {
        pending
    } else {
        pending + hint + seq!['\n']
    }
}

/// The text to append to the file of pending hints; nothing for a blank hint.
pub fn append(hint: &str) -> (r: Option<String>)
    ensures
        match r {
            Some(line) => forall|pending: Seq<char>| #[trigger]
                appended(pending, hint@) == pending + line@,
            None => forall|pending: Seq<char>| #[trigger] appended(pending, hint@) == pending,
        },
        r is None <==> trimmed(hint@).len() == 0,
{
    if text::is_blank(hint) {
        return None;
    }
    let line: String = hint.to_owned().concat("\n");
    proof {
        reveal_strlit("\n");
        assert("\n"@ =~= seq!['\n']);
        assert forall|pending: Seq<char>| #[trigger] appended(pending, hint@) == pending
            + line@ by {
            assert(pending + hint@ + seq!['\n'] =~= pending + (hint@ + seq!['\n']));
        }
    }
    Some(line)
}

/// What is delivered of the pending hints. A missing file delivers nothing.
pub fn take(pending: Option<&str>) -> (r: String)
    ensures
        r@ == (match pending {
            Some(s) => trimmed(s@),
            None => Seq::empty(),
        }),
{
    match pending {
        Some(s) => text::trim(s),
        None => String::new(),
    }
}

/// Marking a node twice is the same as marking it once.
pub proof fn marking_twice_is_once(s: HintView, id: Seq<char>, datum: Seq<char>)
    ensures
        informed(informed(s, id, datum), id, datum) == informed(s, id, datum),
{
    let t = informed(s, id, datum);
    text::lemma_less_total(datum, datum);
    if !s.informed_node_ids.contains(id) {
        assert(t.informed_node_ids[s.informed_node_ids.len() as int] == id);
    }
    assert(t.informed_node_ids.contains(id));
}

/// The date only moves forward, no id is listed twice, and nothing listed is dropped.
pub proof fn marking_only_adds(s: HintView, id: Seq<char>, datum: Seq<char>)
    requires
        s.informed_node_ids.no_duplicates(),
    ensures
        !less(informed(s, id, datum).last_informed_datum, s.last_informed_datum),
        !less(informed(s, id, datum).last_informed_datum, datum),
        informed(s, id, datum).informed_node_ids.no_duplicates(),
        s.informed_node_ids.is_prefix_of(informed(s, id, datum).informed_node_ids),
        informed(s, id, datum).informed_node_ids.contains(id),
{
    text::lemma_less_total(datum, s.last_informed_datum);
    text::lemma_less_total(s.last_informed_datum, datum);
    let t = informed(s, id, datum).informed_node_ids;
    if !s.informed_node_ids.contains(id) {
        assert(t[s.informed_node_ids.len() as int] == id);
        assert(t.take(s.informed_node_ids.len() as int) =~= s.informed_node_ids);
    } else {
        assert(t.take(s.informed_node_ids.len() as int) =~= s.informed_node_ids);
    }
}

} // verus!
