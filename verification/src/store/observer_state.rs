//! How far the observer of a session has come.

use vstd::prelude::*;

verus! {

/// The state of a session's observer between two passes.
#[derive(Debug, Clone, PartialEq)]
pub struct ObserverState {
    /// The transcript that the watermark refers to.
    pub jsonl_stem: String,
    /// The offset behind the last line that was read.
    pub watermark: u64,
    pub rolling_summary: String,
    /// The observer's own conversation; empty before the first pass.
    pub observer_sid: String,
    /// How many turns that conversation has had.
    pub turn_count: u32,
    /// When the observer last ran, in Unix seconds; 0 for never.
    pub last_run_at: u64,
}

#[verifier::ext_equal]
pub struct StateView {
    pub jsonl_stem: Seq<char>,
    pub watermark: u64,
    pub rolling_summary: Seq<char>,
    pub observer_sid: Seq<char>,
    pub turn_count: u32,
    pub last_run_at: u64,
}

impl View for ObserverState {
    type V = StateView;

    open spec fn view(&self) -> StateView {
        StateView {
            jsonl_stem: self.jsonl_stem@,
            watermark: self.watermark,
            rolling_summary: self.rolling_summary@,
            observer_sid: self.observer_sid@,
            turn_count: self.turn_count,
            last_run_at: self.last_run_at,
        }
    }
}

/// The state before the first pass.
pub open spec fn first_state() -> StateView {
    StateView {
        jsonl_stem: Seq::empty(),
        watermark: 0,
        rolling_summary: Seq::empty(),
        observer_sid: Seq::empty(),
        turn_count: 0,
        last_run_at: 0,
    }
}

impl Default for ObserverState {
    fn default() -> (r: ObserverState)
        ensures
            r@ == first_state(),
    {
        ObserverState {
            jsonl_stem: String::new(),
            watermark: 0,
            rolling_summary: String::new(),
            observer_sid: String::new(),
            turn_count: 0,
            last_run_at: 0,
        }
    }
}

} // verus!
