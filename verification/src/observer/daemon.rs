//! The decisions of the daemon: when it stops, how it answers, and what a pass over a
//! transcript does.

use vstd::prelude::*;

use crate::config::{
    dir_in_project, no_prefix, resolve_layered, resolved, rooted, Config, EnvLayer,
};
use crate::dispatch::FreshView;
use crate::ipc::{
    accepted, rejected, IpcRequest, IpcResponse, Reply, ReplyView, RequestView, ResponseView,
};
use crate::json::{json_of_text, parse_json, text_field, Json, JsonView};
use crate::observer::agent::{
    build_create_input, build_reseed_input, build_resume_input, create_input, reseed_input,
    resume_input, should_reseed, OBS_MAX_TURNS,
};
use crate::observer::apply::{applied, apply_ops_store, fits};
use crate::observer::contract::{extraction_in, parse, ExtractionResult, EXTRACTION_PROMPT};
use crate::observer::input::{format_turns, turns};
use crate::observer::tail::{
    consumed, complete_lines, is_injected, lossy, new_lines, reconcile_watermark,
    strip_tool_results, stripped_line, INJECTED_MARKER, MAX_TOOL_RESULT_LEN,
};
use crate::project::{pick_project_dir, project_dir};
use crate::store::model::KnowledgeGraph;
use crate::store::observer_state::{ObserverState, StateView};
use crate::text;
use crate::text::{clone_opt, occurs, opt_text, texts, trimmed};

verus! {

/// After how many seconds without a request the daemon stops, where nothing else is set.
pub const IDLE_DAEMON_SECS: u64 = 600;

/// How many nodes the observer is shown.
pub const DAG_EXCERPT_LIMIT: usize = 40;

/// Where a running daemon can be reached.
#[derive(Debug, Clone, PartialEq)]
pub struct PortFile {
    pub port: u16,
    pub token: String,
    pub pid: u32,
    /// When the daemon started, in Unix seconds.
    pub since: u64,
}

/// The knowledge directory of a project, from the environment and the project's file.
pub fn knowledge_dir_for(
    host: &str,
    env: &EnvLayer,
    file_json: Option<&str>,
    project_dir: &str,
) -> (r: String)
    ensures
        dir_in_project(
            project_dir@,
            resolved(host@, *env, crate::config::opt_str(file_json)).knowledge_dir,
            r@,
        ),
        ({
            let dir = resolved(host@, *env, crate::config::opt_str(file_json)).knowledge_dir;
            rooted(dir) && no_prefix(project_dir@) ==> r@ == dir
        }),
{
    let cfg: Config = resolve_layered(host, env, file_json);
    cfg.knowledge_dir_abs(project_dir)
}

/// Whether the daemon that a port file names is to be left to serve: there is a port file,
/// and the daemon answers.
pub fn is_existing_daemon_live(port_file: Option<&PortFile>, answers: bool) -> (r: bool)
    ensures
        r == (port_file is Some && answers),
{
    port_file.is_some() && answers
}

/// The seconds from `from` to `to`; none where the clock went back.
pub open spec fn elapsed(from: u64, to: u64) -> int {
    if to >= from {
        to - from
    } else {
        0
    }
}

/// Whether the daemon has been idle long enough to stop.
pub fn should_idle_shutdown(last_activity_secs: u64, now_secs: u64, idle_secs: u64) -> (r: bool)
    ensures
        r == (elapsed(last_activity_secs, now_secs) >= idle_secs),
{
    let gone: u64 = if now_secs >= last_activity_secs {
        now_secs - last_activity_secs
    } else {
        0
    };
    gone >= idle_secs
}

// ---- one pass at a time ----

/// The sessions that have a pass running.
#[derive(Debug, Clone)]
pub struct InFlight {
    sessions: Vec<String>,
}

impl View for InFlight {
    type V = Set<Seq<char>>;

    closed spec fn view(&self) -> Set<Seq<char>> {
        texts(self.sessions@).to_set()
    }
}

impl Default for InFlight {
    fn default() -> (r: InFlight)
        ensures
            r@ == Set::<Seq<char>>::empty(),
    {
        let r = InFlight { sessions: Vec::new() };
        assert(r@ =~= Set::<Seq<char>>::empty());
        r
    }
}

impl InFlight {
    /// Claims the pass of a session. Refused while one is running.
    pub fn try_begin_pass(&mut self, session_id: &str) -> (r: bool)
        ensures
            r == !old(self)@.contains(session_id@),
            final(self)@ == old(self)@.insert(session_id@),
    {
        let ghost before = texts(self.sessions@);
        let id: String = session_id.to_owned();
        if text::one_of(&id, &self.sessions) {
            assert(self@ =~= before.to_set().insert(session_id@));
            return false;
        }
        self.sessions.push(id);
        proof {
            let after = texts(self.sessions@);
            assert(after =~= before.push(session_id@));
            assert forall|x: Seq<char>| #[trigger] after.to_set().contains(x)
                == before.to_set().insert(session_id@).contains(x) by {
                if after.contains(x) {
                    let k = choose|k: int| 0 <= k < after.len() && after[k] == x;
                    if k < before.len() {
                        assert(before[k] == x);
                    }
                }
                if before.contains(x) {
                    let k = choose|k: int| 0 <= k < before.len() && before[k] == x;
                    assert(after[k] == x);
                }
                assert(after[before.len() as int] == session_id@);
            }
            assert(self@ =~= before.to_set().insert(session_id@));
        }
        true
    }

    /// Releases the pass of a session.
    pub fn end_pass(&mut self, session_id: &str)
        ensures
            final(self)@ == old(self)@.remove(session_id@),
    {
        let ghost all = texts(self.sessions@);
        let mut rest: Vec<String> = Vec::new();
        let mut i: usize = 0;
        while i < self.sessions.len()
            invariant
                all == texts(self.sessions@),
                i <= self.sessions.len(),
                forall|x: Seq<char>|
                    #[trigger] texts(rest@).contains(x) <==> (x != session_id@ && exists|k: int|
                        0 <= k < i && #[trigger] all[k] == x),
            decreases self.sessions.len() - i,
        {
            assert(all[i as int] == self.sessions@[i as int]@);
            let ghost before = texts(rest@);
            if !text::same(&self.sessions[i], session_id) {
                rest.push(self.sessions[i].clone());
                assert(texts(rest@) =~= before.push(all[i as int]));
            }
            proof {
                let after = texts(rest@);
                assert forall|x: Seq<char>| #[trigger] after.contains(x) <==> (x != session_id@
                    && exists|k: int| 0 <= k < i + 1 && #[trigger] all[k] == x) by {
                    if after.contains(x) {
                        let k = choose|k: int| 0 <= k < after.len() && after[k] == x;
                        if k < before.len() {
                            assert(before[k] == x);
                            assert(before.contains(x));
                        } else {
                            assert(all[i as int] == x);
                        }
                    }
                    if x != session_id@ && exists|k: int| 0 <= k < i + 1 && #[trigger] all[k]
                        == x {
                        let k = choose|k: int| 0 <= k < i + 1 && #[trigger] all[k] == x;
                        if k < i {
                            assert(before.contains(x));
                            let j = choose|j: int| 0 <= j < before.len() && before[j] == x;
                            assert(after[j] == x);
                        } else {
                            assert(after[before.len() as int] == x);
                        }
                    }
                }
            }
            i += 1;
        }
        self.sessions = rest;
        proof {
            assert forall|x: Seq<char>| #[trigger] texts(self.sessions@).to_set().contains(x)
                == all.to_set().remove(session_id@).contains(x) by {
                if all.contains(x) {
                    let k = choose|k: int| 0 <= k < all.len() && all[k] == x;
                    assert(all[k] == x);
                }
            }
            assert(self@ =~= all.to_set().remove(session_id@));
        }
    }
}

/// Triggers for one session coalesce while its pass runs, those of other sessions do not,
/// and the session can run again once its pass has ended.
pub proof fn passes_coalesce(running: Set<Seq<char>>, a: Seq<char>, b: Seq<char>)
    requires
        !running.contains(a),
        !running.contains(b),
        a != b,
    ensures
        running.insert(a).contains(a),
        !running.insert(a).contains(b),
        !running.insert(a).insert(b).remove(a).contains(a),
        running.insert(a).remove(a) == running,
{
    assert(running.insert(a).remove(a) =~= running);
}

// ---- requests ----

/// What the daemon does with a request.
#[derive(Debug)]
pub enum DaemonStep {
    /// Answers at once.
    Reply(IpcResponse),
    /// Delivers the pending hint of a session.
    PopHint { session_id: String },
    /// Starts a pass for a session, whose slot is now taken, and answers at once.
    StartPass { session_id: String, transcript: String, reply: IpcResponse },
    /// Hands a request to the store.
    Store { req: IpcRequest },
}

#[verifier::ext_equal]
pub enum StepView {
    Reply(ResponseView),
    PopHint { session_id: Seq<char> },
    StartPass { session_id: Seq<char>, transcript: Seq<char>, reply: ResponseView },
    Store { req: RequestView },
}

impl View for DaemonStep {
    type V = StepView;

    open spec fn view(&self) -> StepView {
        match *self {
            DaemonStep::Reply(a) => StepView::Reply(a@),
            DaemonStep::PopHint { session_id } => StepView::PopHint { session_id: session_id@ },
            DaemonStep::StartPass { session_id, transcript, reply } => StepView::StartPass {
                session_id: session_id@,
                transcript: transcript@,
                reply: reply@,
            },
            DaemonStep::Store { req } => StepView::Store { req: req@ },
        }
    }
}

/// The text under a key of a payload; empty where there is none.
pub open spec fn payload_text(p: JsonView, key: Seq<char>) -> Seq<char> {
    match text_field(p, key) {
        Some(t) => t,
        None => Seq::empty(),
    }
}

/// The session whose hint is asked for: the one in the payload, or else the one that asks.
pub open spec fn hint_session(r: RequestView) -> Seq<char> {
    let s = payload_text(r.payload, "session_id"@);
    if trimmed(s).len() > 0 {
        s
    } else {
        r.session_id
    }
}

/// The trigger says which session and which transcript.
pub open spec fn trigger_is_complete(r: RequestView) -> bool {
    trimmed(payload_text(r.payload, "session_id"@)).len() > 0 && trimmed(
        payload_text(r.payload, "transcript_path"@),
    ).len() > 0
}

/// The request starts a pass unless one is running for its session.
pub open spec fn is_trigger(r: RequestView) -> bool {
    r.op == "trigger"@ && trigger_is_complete(r)
}

fn get_payload_text(p: &Json, key: &str) -> (r: String)
    ensures
        r@ == payload_text(p@, key@),
{
    match p.get_text(key) {
        Some(t) => t,
        None => String::new(),
    }
}

/// The request as it goes to the store: it is about the project that is served, whatever
/// project it names.
pub open spec fn routed(r: RequestView, project: Seq<char>) -> RequestView {
    RequestView { project_dir: project, ..r }
}

/// What the daemon of a project does with a request while the given sessions have a
/// running pass.
pub open spec fn handled(
    r: RequestView,
    project: Seq<char>,
    since: u64,
    running: Set<Seq<char>>,
) -> StepView {
    let session = payload_text(r.payload, "session_id"@);
    if r.op == "health"@ {
        StepView::Reply(accepted(ReplyView::Health { since }))
    } else if r.op == "hint_pop"@ {
        StepView::PopHint { session_id: hint_session(r) }
    } else if r.op == "trigger"@ {
        if !trigger_is_complete(r) {
            StepView::Reply(rejected("trigger requires session_id and transcript_path"@))
        } else if running.contains(session) {
            StepView::Reply(accepted(ReplyView::Accepted { skipped: true }))
        } else {
            StepView::StartPass {
                session_id: session,
                transcript: payload_text(r.payload, "transcript_path"@),
                reply: accepted(ReplyView::Accepted { skipped: false }),
            }
        }
    } else if r.op == "subscribe"@ {
        StepView::Reply(accepted(ReplyView::NotSubscribed))
    } else {
        StepView::Store { req: routed(r, project) }
    }
}

/// Which project a request names makes no difference: requests that differ in nothing else
/// are handled alike, and what reaches the store is about the project that is served.
pub proof fn served_project_counts(
    a: RequestView,
    b: RequestView,
    project: Seq<char>,
    since: u64,
    running: Set<Seq<char>>,
)
    requires
        a == (RequestView { project_dir: a.project_dir, ..b }),
    ensures
        handled(a, project, since, running) == handled(b, project, since, running),
        handled(a, project, since, running) matches StepView::Store { req } ==> req.project_dir
            == project,
{
}

/// Decides on a request to the daemon of a project. Only a complete trigger touches the
/// running passes.
pub fn handle_request(
    req: &IpcRequest,
    project: &str,
    since: u64,
    in_flight: &mut InFlight,
) -> (r: DaemonStep)
    ensures
        final(in_flight)@ == (if is_trigger(req@) {
            old(in_flight)@.insert(payload_text(req@.payload, "session_id"@))
        } else {
            old(in_flight)@
        }),
        r@ == handled(req@, project@, since, old(in_flight)@),
{
    let op: &str = &req.op;
    proof {
        reveal_strlit("health");
        reveal_strlit("hint_pop");
        reveal_strlit("trigger");
        reveal_strlit("subscribe");
        assert("health"@.len() == 6 && "hint_pop"@.len() == 8 && "trigger"@.len() == 7);
    }
    if text::same(op, "health") {
        DaemonStep::Reply(IpcResponse::ok(Reply::Health { since }))
    } else if text::same(op, "hint_pop") {
        let s: String = get_payload_text(&req.payload, "session_id");
        let session_id: String = if text::is_blank(&s) {
            req.session_id.clone()
        } else {
            s
        };
        DaemonStep::PopHint { session_id }
    } else if text::same(op, "trigger") {
        let session_id: String = get_payload_text(&req.payload, "session_id");
        let transcript: String = get_payload_text(&req.payload, "transcript_path");
        if text::is_blank(&session_id) || text::is_blank(&transcript) {
            return DaemonStep::Reply(
                IpcResponse::err("trigger requires session_id and transcript_path".to_owned()),
            );
        }
        if !in_flight.try_begin_pass(&session_id) {
            return DaemonStep::Reply(IpcResponse::ok(Reply::Accepted { skipped: true }));
        }
        let reply: IpcResponse = IpcResponse::ok(Reply::Accepted { skipped: false });
        DaemonStep::StartPass { session_id, transcript, reply }
    } else if text::same(op, "subscribe") {
        DaemonStep::Reply(IpcResponse::ok(Reply::NotSubscribed))
    } else {
        DaemonStep::Store {
            req: IpcRequest {
                token: req.token.clone(),
                project_dir: project.to_owned(),
                op: req.op.clone(),
                payload: req.payload.copy(),
                session_id: req.session_id.clone(),
            },
        }
    }
}

// ---- the turn of a pass ----

/// How a pass goes on with the observer's conversation.
#[derive(Debug, Clone, Copy, PartialEq, Eq, Structural)]
pub enum TurnMode {
    /// There is none yet.
    Create,
    /// It goes on.
    Resume,
    /// It has had its turns, and a new one takes over.
    Reseed,
}

/// How a pass goes on.
pub open spec fn turn_mode(s: StateView) -> TurnMode {
    if trimmed(s.observer_sid).len() == 0 {
        TurnMode::Create
    } else if s.turn_count >= OBS_MAX_TURNS {
        TurnMode::Reseed
    } else {
        TurnMode::Resume
    }
}

/// How a pass goes on.
pub fn decide_turn_mode(state: &ObserverState) -> (r: TurnMode)
    ensures
        r == turn_mode(state@),
{
    if text::is_blank(&state.observer_sid) {
        TurnMode::Create
    } else if should_reseed(state.turn_count, OBS_MAX_TURNS) {
        TurnMode::Reseed
    } else {
        TurnMode::Resume
    }
}

/// Whether a pass is skipped because the last one was too short ago. Nothing is consumed
/// then.
pub fn is_throttled(state: &ObserverState, now_secs: u64, min_interval_secs: u64) -> (r: bool)
    ensures
        r == (elapsed(state@.last_run_at, now_secs) < min_interval_secs),
{
    let gone: u64 = if now_secs >= state.last_run_at {
        now_secs - state.last_run_at
    } else {
        0
    };
    gone < min_interval_secs
}

/// What a pass reads on in a transcript.
#[derive(Debug)]
pub struct Turns {
    /// The offset behind what was read.
    pub watermark: u64,
    /// The new turns in prose.
    pub delta: String,
}

/// Where reading begins.
pub open spec fn start_mark(s: StateView, len: int, stem: Seq<char>) -> int {
    if s.jsonl_stem != stem {
        0
    } else if len < s.watermark {
        len
    } else {
        s.watermark as int
    }
}

/// The lines that were read.
pub open spec fn raw_lines(buf: Seq<u8>, from: int) -> Seq<Seq<char>> {
    complete_lines(buf, from).map_values(|l: Seq<u8>| lossy(l))
}

/// The first `n` lines as they are observed: without the observer's own hints, and with
/// tool results cut.
pub open spec fn observed(lines: Seq<Seq<char>>, n: int) -> Seq<Seq<char>>
    decreases n,
{
    if n <= 0 {
        Seq::empty()
    } else {
        let before = observed(lines, n - 1);
        if occurs(lines[n - 1], INJECTED_MARKER@) {
            before
        } else {
            before.push(stripped_line(lines[n - 1], MAX_TOOL_RESULT_LEN as int))
        }
    }
}

/// The new turns in prose.
pub open spec fn delta_of(buf: Seq<u8>, from: int) -> Seq<char> {
    let lines = raw_lines(buf, from);
    let kept = observed(lines, lines.len() as int);
    turns(kept, kept.len() as int)
}

fn observe(lines: &Vec<String>) -> (r: Vec<String>)
    ensures
        texts(r@) == observed(texts(lines@), lines@.len() as int),
{
    let ghost all = texts(lines@);
    let mut out: Vec<String> = Vec::new();
    let mut i: usize = 0;
    proof {
        reveal_strlit("[Knowledge]");
        assert(INJECTED_MARKER@ == "[Knowledge]"@);
        assert(texts(out@) =~= observed(all, 0));
    }
    while i < lines.len()
        invariant
            all == texts(lines@),
            INJECTED_MARKER@.len() > 0,
            i <= lines.len(),
            texts(out@) == observed(all, i as int),
        decreases lines.len() - i,
    {
        assert(all[i as int] == lines@[i as int]@);
        if !is_injected(&lines[i], INJECTED_MARKER) {
            let ghost before = out@;
            let line: String = strip_tool_results(&lines[i], MAX_TOOL_RESULT_LEN);
            out.push(line);
            assert(texts(out@) =~= texts(before).push(line@));
        }
        i += 1;
    }
    out
}

/// A line that holds one of the observer's own hints is not observed: with it or without
/// it, the same lines are.
pub proof fn own_hints_are_not_observed(a: Seq<Seq<char>>, line: Seq<char>, b: Seq<Seq<char>>)
    requires
        occurs(line, INJECTED_MARKER@),
    ensures
        observed(a.push(line) + b, (a.len() + 1 + b.len()) as int) == observed(
            a + b,
            (a.len() + b.len()) as int,
        ),
    decreases b.len(),
{
    let with = a.push(line) + b;
    let without = a + b;
    if b.len() == 0 {
        assert(with =~= a.push(line));
        assert(without =~= a);
        lemma_observed_prefix(with, a, a.len() as int);
    } else {
        let c = b.drop_last();
        own_hints_are_not_observed(a, line, c);
        lemma_observed_prefix(with, a.push(line) + c, (a.len() + 1 + c.len()) as int);
        lemma_observed_prefix(without, a + c, (a.len() + c.len()) as int);
        assert(with.last() == b.last() && without.last() == b.last());
    }
}

proof fn lemma_observed_prefix(a: Seq<Seq<char>>, b: Seq<Seq<char>>, n: int)
    requires
        n <= a.len(),
        n <= b.len(),
        forall|k: int| 0 <= k < n ==> a[k] == b[k],
    ensures
        observed(a, n) == observed(b, n),
    decreases n,
{
    if n > 0 {
        lemma_observed_prefix(a, b, n - 1);
    }
}

/// Reads on in a transcript from where the last pass stopped.
pub fn read_turns(state: &ObserverState, buf: &[u8], current_stem: &str) -> (r: Turns)
    ensures
        ({
            let from = start_mark(state@, buf@.len() as int, current_stem@);
            &&& 0 <= from <= buf@.len()
            &&& r.watermark == consumed(buf@, from)
            &&& r.delta@ == delta_of(buf@, from)
        }),
{
    let from: u64 = reconcile_watermark(
        &state.jsonl_stem,
        state.watermark,
        buf.len() as u64,
        current_stem,
    );
    let (raw, watermark) = new_lines(buf, from);
    let lines: Vec<String> = observe(&raw);
    proof {
        if from >= buf@.len() {
            assert(complete_lines(buf@, from as int) =~= Seq::empty());
            assert(texts(raw@) =~= raw_lines(buf@, from as int));
        }
        assert(texts(raw@) == raw_lines(buf@, from as int));
        assert(texts(raw@).len() == raw@.len());
        assert(texts(lines@).len() == lines@.len());
    }
    let delta: String = format_turns(&lines);
    Turns { watermark, delta }
}

/// Whether there is anything to extract from.
pub fn has_turns(t: &Turns) -> (r: bool)
    ensures
        r == (trimmed(t.delta@).len() > 0),
{
    !text::is_blank(&t.delta)
}

/// One turn of the observer's conversation.
#[derive(Debug)]
pub struct TurnPlan {
    pub observer_sid: String,
    pub turn_count: u32,
    pub is_first: bool,
    pub input: String,
}

#[verifier::ext_equal]
pub struct PlanView {
    pub observer_sid: Seq<char>,
    pub turn_count: u32,
    pub is_first: bool,
    pub input: Seq<char>,
}

impl View for TurnPlan {
    type V = PlanView;

    open spec fn view(&self) -> PlanView {
        PlanView {
            observer_sid: self.observer_sid@,
            turn_count: self.turn_count,
            is_first: self.is_first,
            input: self.input@,
        }
    }
}

/// The task that a new conversation is given: the project's own text where it has one,
/// else the built-in one, with the project's addition behind it.
pub open spec fn task_text(own: Option<Seq<char>>, extra: Option<Seq<char>>) -> Seq<char> {
    let base = match own {
        Some(t) => t,
        None => EXTRACTION_PROMPT@,
    };
    match extra {
        Some(e) => base + "\n\n"@ + e,
        None => base,
    }
}

/// The task that a new conversation is given. `own` is what the file `prompt_file` of the
/// settings holds, and `extra` is their `prompt_extra`.
pub fn make_task(own: Option<&str>, extra: Option<&str>) -> (r: String)
    ensures
        r@ == task_text(crate::config::opt_str(own), crate::config::opt_str(extra)),
{
    let base: String = match own {
        Some(t) => t.to_owned(),
        None => EXTRACTION_PROMPT.to_owned(),
    };
    match extra {
        Some(e) => base.concat("\n\n").concat(e),
        None => base,
    }
}

/// The turn that a pass takes. A new conversation gets the fresh id and the task.
pub open spec fn planned(
    s: StateView,
    task: Seq<char>,
    delta: Seq<char>,
    excerpt: Seq<char>,
    fresh_sid: Seq<char>,
) -> PlanView {
    match turn_mode(s) {
        TurnMode::Create => PlanView {
            observer_sid: fresh_sid,
            turn_count: 1,
            is_first: true,
            input: create_input(task, delta, excerpt),
        },
        TurnMode::Reseed => PlanView {
            observer_sid: fresh_sid,
            turn_count: 1,
            is_first: true,
            input: reseed_input(task, s.rolling_summary, excerpt),
        },
        TurnMode::Resume => PlanView {
            observer_sid: s.observer_sid,
            turn_count: (s.turn_count + 1) as u32,
            is_first: false,
            input: resume_input(delta, excerpt),
        },
    }
}

/// Plans the turn that a pass takes.
pub fn plan_turn(
    state: &ObserverState,
    task: &str,
    delta: &str,
    excerpt: &str,
    fresh_sid: &str,
) -> (r: TurnPlan)
    ensures
        r@ == planned(state@, task@, delta@, excerpt@, fresh_sid@),
{
    match decide_turn_mode(state) {
        TurnMode::Create => TurnPlan {
            observer_sid: fresh_sid.to_owned(),
            turn_count: 1,
            is_first: true,
            input: build_create_input(task, delta, excerpt),
        },
        TurnMode::Reseed => TurnPlan {
            observer_sid: fresh_sid.to_owned(),
            turn_count: 1,
            is_first: true,
            input: build_reseed_input(task, &state.rolling_summary, excerpt),
        },
        TurnMode::Resume => TurnPlan {
            observer_sid: state.observer_sid.clone(),
            turn_count: state.turn_count + 1,
            is_first: false,
            input: build_resume_input(delta, excerpt),
        },
    }
}

/// The state after a pass that found nothing to extract from.
pub open spec fn idle_state(s: StateView, stem: Seq<char>, watermark: u64) -> StateView {
    StateView { jsonl_stem: stem, watermark, ..s }
}

/// The state after a pass that found nothing to extract from: only the position moves.
pub fn after_idle(state: &ObserverState, stem: &str, watermark: u64) -> (r: ObserverState)
    ensures
        r@ == idle_state(state@, stem@, watermark),
{
    ObserverState {
        jsonl_stem: stem.to_owned(),
        watermark,
        rolling_summary: state.rolling_summary.clone(),
        observer_sid: state.observer_sid.clone(),
        turn_count: state.turn_count,
        last_run_at: state.last_run_at,
    }
}

/// The state after the observer ran. It keeps a new summary, if there is one.
pub open spec fn run_state(
    s: StateView,
    stem: Seq<char>,
    watermark: u64,
    plan: PlanView,
    summary: Seq<char>,
    now: u64,
) -> StateView {
    StateView {
        jsonl_stem: stem,
        watermark,
        rolling_summary: if trimmed(summary).len() > 0 {
            summary
        } else {
            s.rolling_summary
        },
        observer_sid: plan.observer_sid,
        turn_count: plan.turn_count,
        last_run_at: now,
    }
}

/// The state after the observer ran. A run that failed brings no summary; the position
/// moves all the same, so that the same turns are not read again.
pub fn after_run(
    state: &ObserverState,
    stem: &str,
    watermark: u64,
    plan: &TurnPlan,
    summary: Option<&str>,
    now_secs: u64,
) -> (r: ObserverState)
    ensures
        r@ == run_state(
            state@,
            stem@,
            watermark,
            plan@,
            match summary {
                Some(s) => s@,
                None => Seq::empty(),
            },
            now_secs,
        ),
{
    let rolling_summary: String = match summary {
        Some(s) => if text::is_blank(s) {
            state.rolling_summary.clone()
        } else {
            s.to_owned()
        },
        None => state.rolling_summary.clone(),
    };
    ObserverState {
        jsonl_stem: stem.to_owned(),
        watermark,
        rolling_summary,
        observer_sid: plan.observer_sid.clone(),
        turn_count: plan.turn_count,
        last_run_at: now_secs,
    }
}

/// What a pass does once it has the transcript.
#[derive(Debug)]
pub enum PassStep {
    /// There is nothing to extract from: the state is stored, and the pass is over.
    Rest { state: ObserverState },
    /// The observer is run on the new turns.
    Observe { turns: Turns },
}

/// Goes on with a pass that has the transcript.
pub fn go_on(state: &ObserverState, buf: &[u8], stem: &str) -> (r: PassStep)
    ensures
        ({
            let from = start_mark(state@, buf@.len() as int, stem@);
            let mark = consumed(buf@, from) as u64;
            let delta = delta_of(buf@, from);
            if trimmed(delta).len() == 0 {
                r matches PassStep::Rest { state: s } && s@ == idle_state(state@, stem@, mark)
            } else {
                r matches PassStep::Observe { turns: t } && t.watermark == mark && t.delta@ == delta
            }
        }),
{
    let turns: Turns = read_turns(state, buf, stem);
    if has_turns(&turns) {
        PassStep::Observe { turns }
    } else {
        PassStep::Rest { state: after_idle(state, stem, turns.watermark) }
    }
}

/// What a pass leaves behind.
#[derive(Debug)]
pub struct PassEnd {
    /// To be stored for the session.
    pub state: ObserverState,
    /// How many operations changed the graph.
    pub ops: usize,
    /// The observer answered.
    pub ok: bool,
    /// The observer's pointer for the session; empty for none.
    pub hint: String,
}

/// Ends a pass. `stdout` is what the observer wrote; nothing where its run failed. A run
/// that failed leaves the graph as it is, but the position moves and the turn is counted.
pub fn end_run(
    state: &ObserverState,
    stem: &str,
    watermark: u64,
    plan: &TurnPlan,
    stdout: Option<&str>,
    graph: &mut KnowledgeGraph,
    project_dir: &str,
    session_id: &str,
    enabled: bool,
    known: &Vec<String>,
    now_secs: u64,
) -> (r: PassEnd)
    ensures
        match stdout {
            None => {
                &&& final(graph)@ == old(graph)@
                &&& r.state@ == run_state(state@, stem@, watermark, plan@, Seq::empty(), now_secs)
                &&& r.ops == 0 && !r.ok && r.hint@.len() == 0
            },
            Some(o) => {
                let e = extraction_in(o@);
                &&& exists|fresh: Seq<FreshView>|
                    #[trigger] fits(e.ops, texts(known@), fresh) && (final(graph)@, r.ops as nat)
                        == applied(
                        old(graph)@,
                        e.ops,
                        texts(known@),
                        project_dir@,
                        session_id@,
                        enabled,
                        fresh,
                        e.ops.len() as int,
                    )
                &&& r.state@ == run_state(
                    state@,
                    stem@,
                    watermark,
                    plan@,
                    e.rolling_summary,
                    now_secs,
                )
                &&& r.ok && r.hint@ == trimmed(e.hint)
            },
        },
{
    match stdout {
        None => PassEnd {
            state: after_run(state, stem, watermark, plan, None, now_secs),
            ops: 0,
            ok: false,
            hint: String::new(),
        },
        Some(o) => {
            let result: ExtractionResult = parse(o);
            let ops: usize = apply_ops_store(
                graph,
                project_dir,
                session_id,
                enabled,
                known,
                &result,
            );
            let next: ObserverState = after_run(
                state,
                stem,
                watermark,
                plan,
                Some(&result.rolling_summary),
                now_secs,
            );
            PassEnd { state: next, ops, ok: true, hint: text::trim(&result.hint) }
        },
    }
}

/// The conversation never has more turns than allowed: what a pass leaves behind is at
/// most the limit, whatever state it began in.
pub proof fn turns_are_bounded(
    s: StateView,
    task: Seq<char>,
    delta: Seq<char>,
    excerpt: Seq<char>,
    fresh_sid: Seq<char>,
)
    ensures
        1 <= planned(s, task, delta, excerpt, fresh_sid).turn_count <= OBS_MAX_TURNS,
{
}

/// Where a pass stopped is where the next one begins, if the transcript is still the same
/// and has not shrunk.
pub proof fn next_pass_begins_there(s: StateView, stem: Seq<char>, watermark: u64, len: int)
    requires
        watermark <= len,
    ensures
        start_mark(idle_state(s, stem, watermark), len, stem) == watermark,
        forall|plan: PlanView, summary: Seq<char>, now: u64|
            start_mark(
                #[trigger] run_state(s, stem, watermark, plan, summary, now),
                len,
                stem,
            ) == watermark,
{
}

// ---- the hook that triggers a pass ----

/// What a hook is told on its standard input.
#[derive(Debug, PartialEq)]
pub struct TriggerInput {
    pub session_id: Option<String>,
    pub transcript_path: Option<String>,
    pub cwd: Option<String>,
}

impl Default for TriggerInput {
    fn default() -> (r: TriggerInput)
        ensures
            r.session_id is None,
            r.transcript_path is None,
            r.cwd is None,
    {
        TriggerInput { session_id: None, transcript_path: None, cwd: None }
    }
}

/// A text of the hook's input that is not blank. Input that is no JSON has none.
pub open spec fn hook_text(raw: Seq<char>, key: Seq<char>) -> Option<Seq<char>> {
    match json_of_text(trimmed(raw)) {
        Some(j) => match text_field(j, key) {
            Some(t) => if trimmed(t).len() > 0 {
                Some(t)
            } else {
                None
            },
            None => None,
        },
        None => None,
    }
}

fn filled(o: Option<String>) -> (r: Option<String>)
    ensures
        opt_text(r) == (match o {
            Some(t) => if trimmed(t@).len() > 0 {
                Some(t@)
            } else {
                None
            },
            None => None,
        }),
{
    match o {
        Some(t) => if text::is_blank(&t) {
            None
        } else {
            Some(t)
        },
        None => None,
    }
}

/// Reads the hook's input.
pub fn parse_trigger_input(raw: &str) -> (r: TriggerInput)
    ensures
        opt_text(r.session_id) == hook_text(raw@, "session_id"@),
        opt_text(r.transcript_path) == hook_text(raw@, "transcript_path"@),
        opt_text(r.cwd) == hook_text(raw@, "cwd"@),
{
    match parse_json(&text::trim(raw)) {
        Some(j) => TriggerInput {
            session_id: filled(j.get_text("session_id")),
            transcript_path: filled(j.get_text("transcript_path")),
            cwd: filled(j.get_text("cwd")),
        },
        None => TriggerInput::default(),
    }
}

/// The session of a trigger: the one in the environment, or else the one on the input.
pub fn resolve_trigger_session_id(input: &TriggerInput, env_session_id: Option<&str>) -> (r: String)
    ensures
        r@ == (match env_session_id {
            Some(e) => if trimmed(e@).len() > 0 {
                Some(e@)
            } else {
                opt_text(input.session_id)
            },
            None => opt_text(input.session_id),
        }).unwrap_or(Seq::empty()),
{
    if let Some(e) = env_session_id {
        if !text::is_blank(e) {
            return e.to_owned();
        }
    }
    match &input.session_id {
        Some(s) => s.clone(),
        None => String::new(),
    }
}

/// The project of a trigger: the directory on the input, or else what the environment
/// names, or else the working directory.
pub fn resolve_trigger_project_dir(
    input: &TriggerInput,
    claude_env: Option<String>,
    observer_env: Option<String>,
    cwd: Option<String>,
) -> (r: String)
    ensures
        r@ == project_dir(seq![input.cwd, claude_env, observer_env], cwd),
{
    let candidates: Vec<Option<String>> = vec![clone_opt(&input.cwd), claude_env, observer_env];
    assert(candidates@ =~= seq![input.cwd, claude_env, observer_env]);
    pick_project_dir(&candidates, cwd)
}

} // verus!
