//! Statistics on the observer's runs, for display. They never stop a run.

use vstd::prelude::*;

use crate::seqs::{lemma_filter_len, lemma_filter_take};

verus! {

/// One run of the observer.
#[derive(Debug, Clone, Copy, PartialEq, Eq, Structural)]
pub struct RunRec {
    /// When it ended, in Unix seconds.
    pub at: u64,
    /// How many operations it applied.
    pub ops: i64,
    pub ok: bool,
}

/// The statistics of a project.
#[derive(Debug, Clone)]
pub struct ObserverStats {
    pub schema: u32,
    pub total_runs: u64,
    pub last_run_at: u64,
    pub last_ops: i64,
    pub last_ok: bool,
    pub runs_10m: u64,
    pub runs_1h: u64,
    pub runs_24h: u64,
    pub min_interval_secs: u64,
    pub updated_at: u64,
    /// A run was refused because there were too many. The next recorded run clears it.
    pub paused: bool,
    pub paused_reason: String,
    pub recent: Vec<RunRec>,
}

#[verifier::ext_equal]
pub struct StatsView {
    pub schema: u32,
    pub total_runs: u64,
    pub last_run_at: u64,
    pub last_ops: i64,
    pub last_ok: bool,
    pub runs_10m: u64,
    pub runs_1h: u64,
    pub runs_24h: u64,
    pub min_interval_secs: u64,
    pub updated_at: u64,
    pub paused: bool,
    pub paused_reason: Seq<char>,
    pub recent: Seq<RunRec>,
}

impl View for ObserverStats {
    type V = StatsView;

    open spec fn view(&self) -> StatsView {
        StatsView {
            schema: self.schema,
            total_runs: self.total_runs,
            last_run_at: self.last_run_at,
            last_ops: self.last_ops,
            last_ok: self.last_ok,
            runs_10m: self.runs_10m,
            runs_1h: self.runs_1h,
            runs_24h: self.runs_24h,
            min_interval_secs: self.min_interval_secs,
            updated_at: self.updated_at,
            paused: self.paused,
            paused_reason: self.paused_reason@,
            recent: self.recent@,
        }
    }
}

/// How long runs are remembered: a day.
pub const KEEP_SECS: u64 = 86400;

/// The statistics before any run.
pub open spec fn no_stats() -> StatsView {
    StatsView {
        schema: 1,
        total_runs: 0,
        last_run_at: 0,
        last_ops: 0,
        last_ok: false,
        runs_10m: 0,
        runs_1h: 0,
        runs_24h: 0,
        min_interval_secs: 0,
        updated_at: 0,
        paused: false,
        paused_reason: Seq::empty(),
        recent: Seq::empty(),
    }
}

impl Default for ObserverStats {
    fn default() -> (r: ObserverStats)
        ensures
            r@ == no_stats(),
    {
        ObserverStats {
            schema: 1,
            total_runs: 0,
            last_run_at: 0,
            last_ops: 0,
            last_ok: false,
            runs_10m: 0,
            runs_1h: 0,
            runs_24h: 0,
            min_interval_secs: 0,
            updated_at: 0,
            paused: false,
            paused_reason: String::new(),
            recent: Vec::new(),
        }
    }
}

/// The run is at most `window` seconds old. What lies in the future counts as new.
pub open spec fn is_recent(r: RunRec, now: u64, window: u64) -> bool {
    r.at + window >= now
}

/// The runs that are at most `window` seconds old.
pub open spec fn within(recent: Seq<RunRec>, now: u64, window: u64) -> Seq<RunRec> {
    recent.filter(|r: RunRec| is_recent(r, now, window))
}

/// Counts the runs that are at most `window_secs` old.
pub fn count_within(recent: &Vec<RunRec>, now: u64, window_secs: u64) -> (r: u64)
    ensures
        r == within(recent@, now, window_secs).len(),
{
    let ghost p = |r: RunRec| is_recent(r, now, window_secs);
    let cutoff: u64 = if now >= window_secs {
        now - window_secs
    } else {
        0
    };
    let mut n: u64 = 0;
    let mut i: usize = 0;
    proof {
        reveal(Seq::filter);
        assert(recent@.take(0).filter(p).len() == 0);
    }
    while i < recent.len()
        invariant
            p == (|r: RunRec| is_recent(r, now, window_secs)),
            cutoff == (if now >= window_secs {
                now - window_secs
            } else {
                0
            }),
            i <= recent.len(),
            n <= i,
            n == recent@.take(i as int).filter(p).len(),
        decreases recent.len() - i,
    {
        proof {
            lemma_filter_take(recent@, i as int, p);
        }
        if recent[i].at >= cutoff {
            n += 1;
        }
        i += 1;
    }
    assert(recent@.take(recent@.len() as int) =~= recent@);
    n
}

/// Drops the runs that are older than `keep_secs`.
pub fn prune(recent: Vec<RunRec>, now: u64, keep_secs: u64) -> (r: Vec<RunRec>)
    ensures
        r@ == within(recent@, now, keep_secs),
{
    let ghost p = |r: RunRec| is_recent(r, now, keep_secs);
    let cutoff: u64 = if now >= keep_secs {
        now - keep_secs
    } else {
        0
    };
    let mut out: Vec<RunRec> = Vec::new();
    let mut i: usize = 0;
    proof {
        reveal(Seq::filter);
        assert(out@ =~= recent@.take(0).filter(p));
    }
    while i < recent.len()
        invariant
            p == (|r: RunRec| is_recent(r, now, keep_secs)),
            cutoff == (if now >= keep_secs {
                now - keep_secs
            } else {
                0
            }),
            i <= recent.len(),
            out@ == recent@.take(i as int).filter(p),
        decreases recent.len() - i,
    {
        proof {
            lemma_filter_take(recent@, i as int, p);
        }
        if recent[i].at >= cutoff {
            out.push(recent[i]);
        }
        i += 1;
    }
    assert(recent@.take(recent@.len() as int) =~= recent@);
    out
}

/// The statistics after one more run.
pub open spec fn with_run(s: StatsView, now: u64, ops: i64, ok: bool, interval: u64) -> StatsView {
    let recent = within(s.recent.push(RunRec { at: now, ops, ok }), now, KEEP_SECS);
    StatsView {
        schema: 1,
        total_runs: (s.total_runs + 1) as u64,
        last_run_at: now,
        last_ops: ops,
        last_ok: ok,
        runs_10m: within(recent, now, 600).len() as u64,
        runs_1h: within(recent, now, 3600).len() as u64,
        runs_24h: within(recent, now, 86400).len() as u64,
        min_interval_secs: interval,
        updated_at: now,
        paused: false,
        paused_reason: Seq::empty(),
        recent,
    }
}

/// Records a run: it counts whether it succeeded or not, and clears the pause.
pub fn record_run(
    stats: &mut ObserverStats,
    now: u64,
    ops: i64,
    ok: bool,
    min_interval_secs: u64,
)
    requires
        old(stats).total_runs < u64::MAX,
    ensures
        final(stats)@ == with_run(old(stats)@, now, ops, ok, min_interval_secs),
{
    let ghost before = stats@;
    let mut recent: Vec<RunRec> = Vec::new();
    recent.append(&mut stats.recent);
    assert(recent@ =~= before.recent);
    recent.push(RunRec { at: now, ops, ok });
    let recent: Vec<RunRec> = prune(recent, now, KEEP_SECS);
    stats.total_runs += 1;
    stats.runs_10m = count_within(&recent, now, 600);
    stats.runs_1h = count_within(&recent, now, 3600);
    stats.runs_24h = count_within(&recent, now, 86400);
    stats.recent = recent;
    stats.last_run_at = now;
    stats.last_ops = ops;
    stats.last_ok = ok;
    stats.updated_at = now;
    stats.min_interval_secs = min_interval_secs;
    stats.schema = 1;
    stats.paused = false;
    stats.paused_reason = String::new();
}

/// Counts the recorded runs of the last `window_secs`.
pub fn count_in_window(stats: &ObserverStats, now: u64, window_secs: u64) -> (r: u64)
    ensures
        r == within(stats@.recent, now, window_secs).len(),
{
    count_within(&stats.recent, now, window_secs)
}

/// Marks the observer as paused. That is no run, and nothing is counted.
pub fn set_paused(stats: &mut ObserverStats, now: u64, reason: &str)
    ensures
        final(stats)@ == (StatsView {
            paused: true,
            paused_reason: reason@,
            updated_at: now,
            schema: 1,
            ..old(stats)@
        }),
{
    stats.paused = true;
    stats.paused_reason = reason.to_owned();
    stats.updated_at = now;
    stats.schema = 1;
}

/// A wider window counts at least as many runs.
pub proof fn wider_window_counts_more(recent: Seq<RunRec>, now: u64, a: u64, b: u64)
    requires
        a <= b,
    ensures
        within(recent, now, a).len() <= within(recent, now, b).len(),
    decreases recent.len(),
{
    reveal(Seq::filter);
    if recent.len() > 0 {
        wider_window_counts_more(recent.drop_last(), now, a, b);
    }
}

/// Forgetting old runs does not change what a window of at most that age counts.
pub proof fn pruning_keeps_counts(recent: Seq<RunRec>, now: u64, window: u64, keep: u64)
    requires
        window <= keep,
    ensures
        within(within(recent, now, keep), now, window) == within(recent, now, window),
    decreases recent.len(),
{
    reveal(Seq::filter);
    let p = |r: RunRec| is_recent(r, now, window);
    let q = |r: RunRec| is_recent(r, now, keep);
    if recent.len() > 0 {
        let t = recent.drop_last();
        let x = recent.last();
        pruning_keeps_counts(t, now, window, keep);
        crate::seqs::lemma_filter_push(t.filter(q), x, p);
        assert(recent =~= t.push(x));
        crate::seqs::lemma_filter_push(t, x, q);
        crate::seqs::lemma_filter_push(t, x, p);
    }
}

/// A recorded run clears a pause, is the last one remembered and counts in every
/// window.
pub proof fn recorded_run_counts(s: StatsView, now: u64, ops: i64, ok: bool, interval: u64)
    requires
        s.total_runs < u64::MAX,
        s.recent.len() < u64::MAX,
    ensures
        ({
            let t = with_run(s, now, ops, ok, interval);
            &&& !t.paused
            &&& t.total_runs == s.total_runs + 1
            &&& t.recent.len() > 0 && t.recent.last() == (RunRec { at: now, ops, ok })
            &&& 1 <= t.runs_10m <= t.runs_1h <= t.runs_24h
        }),
{
    let x = RunRec { at: now, ops, ok };
    let p = |r: RunRec| is_recent(r, now, KEEP_SECS);
    crate::seqs::lemma_filter_push(s.recent, x, p);
    let recent = within(s.recent.push(x), now, KEEP_SECS);
    let kept = s.recent.filter(p);
    let q = |r: RunRec| is_recent(r, now, 600);
    crate::seqs::lemma_filter_push(kept, x, q);
    wider_window_counts_more(recent, now, 600, 3600);
    wider_window_counts_more(recent, now, 3600, 86400);
    lemma_filter_len(s.recent.push(x), p);
    lemma_filter_len(recent, |r: RunRec| is_recent(r, now, 86400));
}

} // verus!
