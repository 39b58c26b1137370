//! The observer's own conversation: what it is given to read, and how it is run.

use vstd::prelude::*;
use vstd::string::StringExecFns;

use crate::store::ids::{fresh_id, is_uuid};
use crate::text;
use crate::text::{texts, trimmed};

verus! {

/// After how many turns the conversation is retired and a new one is seeded.
pub const OBS_MAX_TURNS: u32 = 30;

/// How long one turn may take, in seconds.
pub const OBS_TIMEOUT_SECS: u64 = 120;

/// The headings of the sections of the input.
pub const SEC_PROMPT: &'static str = "=== TASK ===";

pub const SEC_DAG: &'static str = "=== EXISTING GRAPH (excerpt) ===";

pub const SEC_DELTA: &'static str = "=== NEW TURNS (delta) ===";

pub const SEC_SUMMARY: &'static str = "=== SESSION SO FAR (summary) ===";

/// A section: its heading and its text, on lines of their own.
pub open spec fn section(heading: Seq<char>, body: Seq<char>) -> Seq<char> {
    heading + "\n"@ + body + "\n"@
}

fn write_section(heading: &str, body: &str) -> (r: String)
    ensures
        r@ == section(heading@, body@),
{
    heading.to_owned().concat("\n").concat(body).concat("\n")
}

/// The input of the first turn: the prompt, an excerpt of the graph and the new turns.
pub open spec fn create_input(prompt: Seq<char>, delta: Seq<char>, dag: Seq<char>) -> Seq<char> {
    section(SEC_PROMPT@, prompt) + "\n"@ + section(SEC_DAG@, dag) + "\n"@ + section(
        SEC_DELTA@,
        delta,
    )
}

/// The input of a later turn: an excerpt of the graph and the new turns. The
/// conversation knows the prompt already.
pub open spec fn resume_input(delta: Seq<char>, dag: Seq<char>) -> Seq<char> {
    section(SEC_DAG@, dag) + "\n"@ + section(SEC_DELTA@, delta)
}

/// The first input of a conversation that takes over: the prompt, the summary so far
/// and an excerpt of the graph.
pub open spec fn reseed_input(prompt: Seq<char>, summary: Seq<char>, dag: Seq<char>) -> Seq<char> {
    section(SEC_PROMPT@, prompt) + "\n"@ + section(SEC_SUMMARY@, summary) + "\n"@ + section(
        SEC_DAG@,
        dag,
    )
}

/// The input of the first turn.
pub fn build_create_input(prompt: &str, delta_turns: &str, dag_excerpt: &str) -> (r: String)
    ensures
        r@ == create_input(prompt@, delta_turns@, dag_excerpt@),
{
    write_section(SEC_PROMPT, prompt).concat("\n").concat(
        &write_section(SEC_DAG, dag_excerpt),
    ).concat("\n").concat(&write_section(SEC_DELTA, delta_turns))
}

/// The input of a later turn.
pub fn build_resume_input(delta_turns: &str, dag_excerpt: &str) -> (r: String)
    ensures
        r@ == resume_input(delta_turns@, dag_excerpt@),
{
    write_section(SEC_DAG, dag_excerpt).concat("\n").concat(
        &write_section(SEC_DELTA, delta_turns),
    )
}

/// The first input of a conversation that takes over.
pub fn build_reseed_input(prompt: &str, rolling_summary: &str, dag_excerpt: &str) -> (r: String)
    ensures
        r@ == reseed_input(prompt@, rolling_summary@, dag_excerpt@),
{
    write_section(SEC_PROMPT, prompt).concat("\n").concat(
        &write_section(SEC_SUMMARY, rolling_summary),
    ).concat("\n").concat(&write_section(SEC_DAG, dag_excerpt))
}

/// Whether a conversation has had its turns.
pub fn should_reseed(turn_count: u32, max_turns: u32) -> (r: bool)
    ensures
        r == (turn_count >= max_turns),
{
    turn_count >= max_turns
}

/// One run of the command-line agent: where, with which arguments, and what it is given
/// on its standard input.
#[derive(Debug, Clone, PartialEq)]
pub struct Invocation {
    pub working_directory: String,
    pub args: Vec<String>,
    pub stdin: String,
}

/// The arguments of a run. The project's own settings are left out, so that its hooks
/// do not observe the observer.
pub open spec fn run_args(observer_sid: Seq<char>, is_first: bool) -> Seq<Seq<char>> {
    seq![
        if is_first {
            "--session-id"@
        } else {
            "--resume"@
        },
        observer_sid,
        "--setting-sources"@,
        "user"@,
    ]
}

/// How a turn of the observer is run: the first one creates the conversation, a later
/// one resumes it. The input ends with a line feed.
pub fn run_extraction(
    working_directory: &str,
    observer_sid: &str,
    is_first: bool,
    input_text: &str,
) -> (r: Invocation)
    ensures
        r.working_directory@ == working_directory@,
        texts(r.args@) == run_args(observer_sid@, is_first),
        r.stdin@ == input_text@ + "\n"@,
{
    let flag: &str = if is_first {
        "--session-id"
    } else {
        "--resume"
    };
    let args: Vec<String> = vec![
        flag.to_owned(),
        observer_sid.to_owned(),
        "--setting-sources".to_owned(),
        "user".to_owned(),
    ];
    assert(texts(args@) =~= run_args(observer_sid@, is_first));
    Invocation {
        working_directory: working_directory.to_owned(),
        args,
        stdin: input_text.to_owned().concat("\n"),
    }
}

/// How a run of the agent came to its end.
#[derive(Debug)]
pub enum RunEnd {
    /// It could not be started, and why.
    NotStarted(String),
    /// It took too long and was stopped.
    TimedOut,
    /// Its end could not be waited for, and why.
    Lost(String),
    /// It ended by itself.
    Exited { success: bool, code: String, stdout: String, stderr: String },
}

/// A name as a title: its first letter is a capital, if it is a small ASCII letter.
pub open spec fn titled(name: Seq<char>) -> Seq<char> {
    if name.len() > 0 && 'a' <= name[0] <= 'z' {
        name.update(0, (name[0] as u32 - 32) as char)
    } else {
        name
    }
}

fn title(name: &str) -> (r: String)
    ensures
        r@ == titled(name@),
{
    let mut v: Vec<char> = text::chars_of(name);
    if v.len() > 0 && 'a' <= v[0] && v[0] <= 'z' {
        let c: u8 = v[0] as u8;
        v.set(0, (c - 32) as char);
    }
    text::string_of(v.as_slice())
}

/// What a run of the agent, the program `host`, gives: what it wrote, or why that does not
/// count. A run counts where it ended with success and wrote something.
pub open spec fn run_result(host: Seq<char>, end: RunEnd) -> Result<Seq<char>, Seq<char>> {
    match end {
        RunEnd::NotStarted(why) => Err("spawn "@ + host + ": "@ + why@),
        RunEnd::TimedOut => Err("ephemeral "@ + titled(host) + " timed out"@),
        RunEnd::Lost(why) => Err("wait on "@ + host + ": "@ + why@),
        RunEnd::Exited { success, code, stdout, stderr } => if !success {
            Err(
                host + " exited with failure (code "@ + code@ + "); stderr: "@ + trimmed(stderr@)
                    + "; stdout: "@ + trimmed(stdout@),
            )
        } else if stdout@.len() == 0 {
            Err(host + " wrote nothing"@)
        } else {
            Ok(stdout@)
        },
    }
}

/// Judges a run of the agent.
pub fn judge_run(host: &str, end: RunEnd) -> (r: Result<String, String>)
    ensures
        match run_result(host@, end) {
            Ok(out) => r matches Ok(s) && s@ == out,
            Err(why) => r matches Err(s) && s@ == why,
        },
{
    proof {
        reveal_strlit("");
        assert(forall|t: Seq<char>| #[trigger] t.len() == 0 ==> t =~= ""@);
    }
    match end {
        RunEnd::NotStarted(why) => Err("spawn ".to_owned().concat(host).concat(": ").concat(&why)),
        RunEnd::TimedOut => Err("ephemeral ".to_owned().concat(&title(host)).concat(" timed out")),
        RunEnd::Lost(why) => Err("wait on ".to_owned().concat(host).concat(": ").concat(&why)),
        RunEnd::Exited { success, code, stdout, stderr } => if !success {
            Err(
                host.to_owned().concat(" exited with failure (code ").concat(&code).concat(
                    "); stderr: ",
                ).concat(&text::trim(&stderr)).concat("; stdout: ").concat(&text::trim(&stdout)),
            )
        } else if text::same(&stdout, "") {
            Err(host.to_owned().concat(" wrote nothing"))
        } else {
            Ok(stdout)
        },
    }
}

/// Marks the agent and what it starts, so that its hooks do nothing.
pub const INTERNAL: &'static str = "KNOWLEDGE_OBSERVER_INTERNAL";

/// The variables by which a session marks what runs inside it.
pub open spec fn session_marks() -> Seq<Seq<char>> {
    seq!["CLAUDECODE"@, "CLAUDE_CODE_ENTRYPOINT"@, "CLAUDE_CODE_SESSION"@]
}

/// The marks of a surrounding session, which a process that is started must not inherit.
pub fn outer_session() -> (r: Vec<String>)
    ensures
        texts(r@) == session_marks(),
{
    let r: Vec<String> = vec![
        "CLAUDECODE".to_owned(),
        "CLAUDE_CODE_ENTRYPOINT".to_owned(),
        "CLAUDE_CODE_SESSION".to_owned(),
    ];
    assert(texts(r@) =~= session_marks());
    r
}

/// What a run changes in its environment: the variables that it sets, with their values,
/// and those that it removes.
pub fn run_environment() -> (r: (Vec<(String, String)>, Vec<String>))
    ensures
        r.0.len() == 1,
        r.0[0].0@ == INTERNAL@,
        r.0[0].1@ == "1"@,
        texts(r.1@) == session_marks(),
{
    let set: Vec<(String, String)> = vec![(INTERNAL.to_owned(), "1".to_owned())];
    (set, outer_session())
}

/// A fresh id for a conversation.
pub fn new_observer_sid() -> (r: String)
    ensures
        is_uuid(r@),
{
    fresh_id()
}

} // verus!
