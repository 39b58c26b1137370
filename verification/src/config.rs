//! Layered configuration. Per key, the project's own file wins over the environment,
//! which wins over the defaults.

use vstd::prelude::*;
use vstd::string::StringExecFns;

use crate::json::{json_of_text, parse_json, Json, JsonView};
use crate::record::{
    fits_record, get_member, has_repeated, is_record, member, opt_flag_member, opt_natural_member,
    opt_text_member, read_opt_flag, read_opt_natural, read_opt_text, repeats_any,
};
use crate::text;
use crate::text::{ascii_lowered, clone_opt, opt_text, texts, trimmed};

verus! {

/// The settings of a project.
#[derive(Debug, Clone, PartialEq)]
pub struct Config {
    pub enabled: bool,
    /// Relative to the project, or absolute.
    pub knowledge_dir: String,
    pub model: Option<String>,
    pub idle_daemon_secs: u64,
    /// The least number of seconds between two observer runs of a session.
    pub min_interval_secs: u64,
    pub obs_max_turns: u32,
    pub max_decisions: usize,
    pub max_questions: usize,
    /// Appended to the extraction prompt.
    pub prompt_extra: Option<String>,
    /// Takes the place of the extraction prompt.
    pub prompt_file: Option<String>,
}

#[verifier::ext_equal]
pub struct ConfigView {
    pub enabled: bool,
    pub knowledge_dir: Seq<char>,
    pub model: Option<Seq<char>>,
    pub idle_daemon_secs: u64,
    pub min_interval_secs: u64,
    pub obs_max_turns: u32,
    pub max_decisions: usize,
    pub max_questions: usize,
    pub prompt_extra: Option<Seq<char>>,
    pub prompt_file: Option<Seq<char>>,
}

impl View for Config {
    type V = ConfigView;

    open spec fn view(&self) -> ConfigView {
        ConfigView {
            enabled: self.enabled,
            knowledge_dir: self.knowledge_dir@,
            model: opt_text(self.model),
            idle_daemon_secs: self.idle_daemon_secs,
            min_interval_secs: self.min_interval_secs,
            obs_max_turns: self.obs_max_turns,
            max_decisions: self.max_decisions,
            max_questions: self.max_questions,
            prompt_extra: opt_text(self.prompt_extra),
            prompt_file: opt_text(self.prompt_file),
        }
    }
}

/// The directory, below a project, in which the program that the observer serves keeps
/// its own files: a dot and the program's name.
pub open spec fn host_directory(host: Seq<char>) -> Seq<char> {
    "."@ + host
}

/// See `host_directory`.
pub fn host_dir(host: &str) -> (r: String)
    ensures
        r@ == host_directory(host@),
{
    ".".to_owned().concat(host)
}

/// The settings where nothing is set, for an observer that serves the program `host`.
pub open spec fn default_config(host: Seq<char>) -> ConfigView {
    ConfigView {
        enabled: true,
        knowledge_dir: host_directory(host) + "/knowledge"@,
        model: None,
        idle_daemon_secs: 600,
        min_interval_secs: 45,
        obs_max_turns: 30,
        max_decisions: 15,
        max_questions: 15,
        prompt_extra: None,
        prompt_file: None,
    }
}

impl Config {
    /// The settings where nothing is set, for an observer that serves the program `host`.
    pub fn defaults(host: &str) -> (r: Config)
        ensures
            r@ == default_config(host@),
    {
        Config {
            enabled: true,
            knowledge_dir: host_dir(host).concat("/knowledge"),
            model: None,
            idle_daemon_secs: 600,
            min_interval_secs: 45,
            obs_max_turns: 30,
            max_decisions: 15,
            max_questions: 15,
            prompt_extra: None,
            prompt_file: None,
        }
    }
}

// ---- single values ----

/// A text in which ASCII capital letters are lowered.
pub fn lower_ascii(s: &str) -> (r: String)
    ensures
        r@ == ascii_lowered(s@),
{
    let v: Vec<char> = text::chars_of(s);
    let mut out: Vec<char> = Vec::new();
    let mut i: usize = 0;
    while i < v.len()
        invariant
            i <= v.len(),
            out.len() == i,
            forall|k: int| 0 <= k < i ==> #[trigger] out@[k] == text::ascii_lower(v@[k]),
        decreases v.len() - i,
    {
        let c: char = v[i];
        let low: char = if 'A' <= c && c <= 'Z' {
            (c as u8 + 32) as char
        } else {
            c
        };
        out.push(low);
        i += 1;
    }
    assert(out@ =~= ascii_lowered(v@));
    text::string_of(out.as_slice())
}

/// The flag that a word stands for.
pub open spec fn flag_word(s: Seq<char>) -> Option<bool> {
    let w = ascii_lowered(trimmed(s));
    if w == "1"@ || w == "true"@ || w == "yes"@ || w == "on"@ {
        Some(true)
    } else if w == "0"@ || w == "false"@ || w == "no"@ || w == "off"@ {
        Some(false)
    } else {
        None
    }
}

/// Reads a flag: 1, true, yes, on, or 0, false, no, off, in either case.
pub fn parse_bool(s: &str) -> (r: Option<bool>)
    ensures
        r == flag_word(s@),
{
    let w: String = lower_ascii(&text::trim(s));
    if text::same(&w, "1") || text::same(&w, "true") || text::same(&w, "yes") || text::same(
        &w,
        "on",
    ) {
        Some(true)
    } else if text::same(&w, "0") || text::same(&w, "false") || text::same(&w, "no")
        || text::same(&w, "off") {
        Some(false)
    } else {
        None
    }
}

/// The digits of a number behind an optional plus sign.
pub open spec fn unsigned_digits(s: Seq<char>) -> Seq<char> {
    if s.len() > 0 && s[0] == '+' {
        s.skip(1)
    } else {
        s
    }
}

/// The number of at most `max` that a text stands for: digits, behind an optional plus
/// sign, and nothing else.
pub open spec fn unsigned(s: Seq<char>, max: int) -> Option<u64> {
    match crate::json::natural(unsigned_digits(s)) {
        Some(n) => if n <= max {
            Some(n)
        } else {
            None
        },
        None => None,
    }
}

/// Reads a number of at most `max`.
pub fn parse_unsigned(s: &str, max: u64) -> (r: Option<u64>)
    ensures
        r == unsigned(s@, max as int),
{
    let v: Vec<char> = text::chars_of(s);
    let digits: String = if v.len() > 0 && v[0] == '+' {
        assert(v@.subrange(1, v@.len() as int) =~= v@.skip(1));
        text::string_of(vstd::slice::slice_subrange(v.as_slice(), 1, v.len()))
    } else {
        s.to_owned()
    };
    match crate::json::read_natural(&digits) {
        Some(n) => if n <= max {
            Some(n)
        } else {
            None
        },
        None => None,
    }
}

// ---- the environment ----

/// The values that the environment gives, per key. A blank one counts as missing.
#[derive(Debug, Clone)]
pub struct EnvLayer {
    pub enabled: Option<String>,
    pub knowledge_dir: Option<String>,
    pub model: Option<String>,
    pub idle_daemon_secs: Option<String>,
    pub min_interval_secs: Option<String>,
    pub obs_max_turns: Option<String>,
    pub max_decisions: Option<String>,
    pub max_questions: Option<String>,
    pub prompt_extra: Option<String>,
    pub prompt_file: Option<String>,
}

impl Default for EnvLayer {
    fn default() -> (r: EnvLayer)
        ensures
            r == (EnvLayer {
                enabled: None,
                knowledge_dir: None,
                model: None,
                idle_daemon_secs: None,
                min_interval_secs: None,
                obs_max_turns: None,
                max_decisions: None,
                max_questions: None,
                prompt_extra: None,
                prompt_file: None,
            }),
    {
        EnvLayer {
            enabled: None,
            knowledge_dir: None,
            model: None,
            idle_daemon_secs: None,
            min_interval_secs: None,
            obs_max_turns: None,
            max_decisions: None,
            max_questions: None,
            prompt_extra: None,
            prompt_file: None,
        }
    }
}

/// The variables that may hold a key, the first of them first. The key is given in
/// lower case.
pub open spec fn names_of(key: Seq<char>, upper: Seq<char>) -> Seq<Seq<char>> {
    seq!["CLAUDE_PLUGIN_OPTION_"@ + key, "CLAUDE_PLUGIN_OPTION_"@ + upper, "OBSERVER_"@ + upper]
}

/// The names of the variables that may hold a key, given in lower and in upper case.
pub fn env_names(key: &str, upper: &str) -> (r: Vec<String>)
    ensures
        texts(r@) == names_of(key@, upper@),
{
    let r: Vec<String> = vec![
        "CLAUDE_PLUGIN_OPTION_".to_owned().concat(key),
        "CLAUDE_PLUGIN_OPTION_".to_owned().concat(upper),
        "OBSERVER_".to_owned().concat(upper),
    ];
    assert(texts(r@) =~= names_of(key@, upper@));
    r
}

/// The first value from `from` on that is there and not blank.
pub open spec fn first_value(values: Seq<Option<String>>, from: int) -> Option<Seq<char>>
    decreases values.len() - from,
{
    if from < 0 || from >= values.len() {
        None
    } else {
        match values[from] {
            Some(v) => if trimmed(v@).len() > 0 {
                Some(v@)
            } else {
                first_value(values, from + 1)
            },
            None => first_value(values, from + 1),
        }
    }
}

/// The first value that is there and not blank.
pub fn first_set(values: &Vec<Option<String>>) -> (r: Option<String>)
    ensures
        opt_text(r) == first_value(values@, 0),
{
    let mut i: usize = 0;
    while i < values.len()
        invariant
            i <= values.len(),
            first_value(values@, 0) == first_value(values@, i as int),
        decreases values.len() - i,
    {
        if let Some(v) = &values[i] {
            if !text::is_blank(v) {
                return Some(v.clone());
            }
        }
        i += 1;
    }
    None
}

// ---- the project's file ----

/// What a layer sets; the rest is left to the layers below it.
#[derive(Debug, Clone)]
pub struct PartialConfig {
    pub enabled: Option<bool>,
    pub knowledge_dir: Option<String>,
    pub model: Option<String>,
    pub idle_daemon_secs: Option<u64>,
    pub min_interval_secs: Option<u64>,
    pub obs_max_turns: Option<u32>,
    pub max_decisions: Option<usize>,
    pub max_questions: Option<usize>,
    pub prompt_extra: Option<String>,
    pub prompt_file: Option<String>,
}

#[verifier::ext_equal]
pub struct PartialView {
    pub enabled: Option<bool>,
    pub knowledge_dir: Option<Seq<char>>,
    pub model: Option<Seq<char>>,
    pub idle_daemon_secs: Option<u64>,
    pub min_interval_secs: Option<u64>,
    pub obs_max_turns: Option<u32>,
    pub max_decisions: Option<usize>,
    pub max_questions: Option<usize>,
    pub prompt_extra: Option<Seq<char>>,
    pub prompt_file: Option<Seq<char>>,
}

impl View for PartialConfig {
    type V = PartialView;

    open spec fn view(&self) -> PartialView {
        PartialView {
            enabled: self.enabled,
            knowledge_dir: opt_text(self.knowledge_dir),
            model: opt_text(self.model),
            idle_daemon_secs: self.idle_daemon_secs,
            min_interval_secs: self.min_interval_secs,
            obs_max_turns: self.obs_max_turns,
            max_decisions: self.max_decisions,
            max_questions: self.max_questions,
            prompt_extra: opt_text(self.prompt_extra),
            prompt_file: opt_text(self.prompt_file),
        }
    }
}

/// The layer that sets nothing.
pub open spec fn nothing_set() -> PartialView {
    PartialView {
        enabled: None,
        knowledge_dir: None,
        model: None,
        idle_daemon_secs: None,
        min_interval_secs: None,
        obs_max_turns: None,
        max_decisions: None,
        max_questions: None,
        prompt_extra: None,
        prompt_file: None,
    }
}

/// A number as one of 32 bits.
pub open spec fn as_small(o: Option<u64>) -> Option<u32> {
    match o {
        Some(n) => Some(n as u32),
        None => None,
    }
}

/// A number as a count.
pub open spec fn as_count(o: Option<u64>) -> Option<usize> {
    match o {
        Some(n) => Some(n as usize),
        None => None,
    }
}

/// The keys of the file.
pub open spec fn file_keys() -> Seq<Seq<char>> {
    seq![
        "enabled"@,
        "knowledge_dir"@,
        "model"@,
        "idle_daemon_secs"@,
        "min_interval_secs"@,
        "obs_max_turns"@,
        "max_decisions"@,
        "max_questions"@,
        "prompt_extra"@,
        "prompt_file"@,
    ]
}

/// What a JSON value sets, or nothing where a member has the wrong type.
pub open spec fn layer_of(j: JsonView) -> Option<PartialView> {
    let enabled = opt_flag_member(member(j, "enabled"@, 0));
    let knowledge_dir = opt_text_member(member(j, "knowledge_dir"@, 1));
    let model = opt_text_member(member(j, "model"@, 2));
    let idle = opt_natural_member(member(j, "idle_daemon_secs"@, 3), u64::MAX as int);
    let interval = opt_natural_member(member(j, "min_interval_secs"@, 4), u64::MAX as int);
    let turns = opt_natural_member(member(j, "obs_max_turns"@, 5), u32::MAX as int);
    let decisions = opt_natural_member(member(j, "max_decisions"@, 6), usize::MAX as int);
    let questions = opt_natural_member(member(j, "max_questions"@, 7), usize::MAX as int);
    let extra = opt_text_member(member(j, "prompt_extra"@, 8));
    let file = opt_text_member(member(j, "prompt_file"@, 9));
    if is_record(j, 10) && enabled is Some && knowledge_dir is Some && model is Some && idle is Some
        && interval is Some && turns is Some && decisions is Some && questions is Some
        && extra is Some && file is Some {
        Some(
            PartialView {
                enabled: enabled->0,
                knowledge_dir: knowledge_dir->0,
                model: model->0,
                idle_daemon_secs: idle->0,
                min_interval_secs: interval->0,
                obs_max_turns: as_small(turns->0),
                max_decisions: as_count(decisions->0),
                max_questions: as_count(questions->0),
                prompt_extra: extra->0,
                prompt_file: file->0,
            },
        )
    } else {
        None
    }
}

/// What the project's file sets. A missing or malformed file sets nothing.
pub open spec fn file_layer(file: Option<Seq<char>>) -> PartialView {
    match file {
        None => nothing_set(),
        Some(s) => match json_of_text(s) {
            None => nothing_set(),
            Some(j) => if repeats_any(s, file_keys()) {
                nothing_set()
            } else {
                match layer_of(j) {
                    Some(l) => l,
                    None => nothing_set(),
                }
            },
        },
    }
}

/// What the environment sets. A value that cannot be read sets nothing.
pub open spec fn env_layer(env: EnvLayer) -> PartialView {
    PartialView {
        enabled: match env.enabled {
            Some(s) => flag_word(s@),
            None => None,
        },
        knowledge_dir: opt_text(env.knowledge_dir),
        model: opt_text(env.model),
        idle_daemon_secs: env_number(env.idle_daemon_secs, u64::MAX as int),
        min_interval_secs: env_number(env.min_interval_secs, u64::MAX as int),
        obs_max_turns: as_small(env_number(env.obs_max_turns, u32::MAX as int)),
        max_decisions: as_count(env_number(env.max_decisions, usize::MAX as int)),
        max_questions: as_count(env_number(env.max_questions, usize::MAX as int)),
        prompt_extra: opt_text(env.prompt_extra),
        prompt_file: opt_text(env.prompt_file),
    }
}

/// The number that the environment gives.
pub open spec fn env_number(o: Option<String>, max: int) -> Option<u64> {
    match o {
        Some(s) => unsigned(s@, max),
        None => None,
    }
}

/// One layer on top of the settings below it.
pub open spec fn layered(c: ConfigView, l: PartialView) -> ConfigView {
    ConfigView {
        enabled: l.enabled.unwrap_or(c.enabled),
        knowledge_dir: l.knowledge_dir.unwrap_or(c.knowledge_dir),
        model: if l.model is Some {
            l.model
        } else {
            c.model
        },
        idle_daemon_secs: l.idle_daemon_secs.unwrap_or(c.idle_daemon_secs),
        min_interval_secs: l.min_interval_secs.unwrap_or(c.min_interval_secs),
        obs_max_turns: l.obs_max_turns.unwrap_or(c.obs_max_turns),
        max_decisions: l.max_decisions.unwrap_or(c.max_decisions),
        max_questions: l.max_questions.unwrap_or(c.max_questions),
        prompt_extra: if l.prompt_extra is Some {
            l.prompt_extra
        } else {
            c.prompt_extra
        },
        prompt_file: if l.prompt_file is Some {
            l.prompt_file
        } else {
            c.prompt_file
        },
    }
}

/// The settings of a project: its file over the environment over the defaults.
pub open spec fn resolved(host: Seq<char>, env: EnvLayer, file: Option<Seq<char>>) -> ConfigView {
    layered(layered(default_config(host), env_layer(env)), file_layer(file))
}

fn apply_layer(c: &mut Config, l: PartialConfig)
    ensures
        final(c)@ == layered(old(c)@, l@),
{
    if let Some(v) = l.enabled {
        c.enabled = v;
    }
    if let Some(v) = l.knowledge_dir {
        c.knowledge_dir = v;
    }
    if let Some(v) = l.model {
        c.model = Some(v);
    }
    if let Some(v) = l.idle_daemon_secs {
        c.idle_daemon_secs = v;
    }
    if let Some(v) = l.min_interval_secs {
        c.min_interval_secs = v;
    }
    if let Some(v) = l.obs_max_turns {
        c.obs_max_turns = v;
    }
    if let Some(v) = l.max_decisions {
        c.max_decisions = v;
    }
    if let Some(v) = l.max_questions {
        c.max_questions = v;
    }
    if let Some(v) = l.prompt_extra {
        c.prompt_extra = Some(v);
    }
    if let Some(v) = l.prompt_file {
        c.prompt_file = Some(v);
    }
}

fn to_small(o: Option<u64>) -> (r: Option<u32>)
    requires
        o matches Some(n) ==> n <= u32::MAX,
    ensures
        r == as_small(o),
{
    match o {
        Some(n) => Some(n as u32),
        None => None,
    }
}

fn to_count(o: Option<u64>) -> (r: Option<usize>)
    requires
        o matches Some(n) ==> n <= usize::MAX,
    ensures
        r == as_count(o),
{
    match o {
        Some(n) => Some(n as usize),
        None => None,
    }
}

fn env_unsigned(o: &Option<String>, max: u64) -> (r: Option<u64>)
    ensures
        r == env_number(*o, max as int),
        r matches Some(n) ==> n <= max,
{
    match o {
        Some(s) => parse_unsigned(s, max),
        None => None,
    }
}

fn read_env(env: &EnvLayer) -> (r: PartialConfig)
    ensures
        r@ == env_layer(*env),
{
    PartialConfig {
        enabled: match &env.enabled {
            Some(s) => parse_bool(s),
            None => None,
        },
        knowledge_dir: clone_opt(&env.knowledge_dir),
        model: clone_opt(&env.model),
        idle_daemon_secs: env_unsigned(&env.idle_daemon_secs, u64::MAX),
        min_interval_secs: env_unsigned(&env.min_interval_secs, u64::MAX),
        obs_max_turns: to_small(env_unsigned(&env.obs_max_turns, u32::MAX as u64)),
        max_decisions: to_count(env_unsigned(&env.max_decisions, usize::MAX as u64)),
        max_questions: to_count(env_unsigned(&env.max_questions, usize::MAX as u64)),
        prompt_extra: clone_opt(&env.prompt_extra),
        prompt_file: clone_opt(&env.prompt_file),
    }
}

fn read_layer(j: &Json) -> (r: Option<PartialConfig>)
    ensures
        match r {
            Some(l) => layer_of(j@) == Some(l@),
            None => layer_of(j@) is None,
        },
{
    if !fits_record(j, 10) {
        return None;
    }
    let enabled = read_opt_flag(get_member(j, "enabled", 0));
    let knowledge_dir = read_opt_text(get_member(j, "knowledge_dir", 1));
    let model = read_opt_text(get_member(j, "model", 2));
    let idle = read_opt_natural(get_member(j, "idle_daemon_secs", 3), u64::MAX);
    let interval = read_opt_natural(get_member(j, "min_interval_secs", 4), u64::MAX);
    let turns = read_opt_natural(get_member(j, "obs_max_turns", 5), u32::MAX as u64);
    let decisions = read_opt_natural(get_member(j, "max_decisions", 6), usize::MAX as u64);
    let questions = read_opt_natural(get_member(j, "max_questions", 7), usize::MAX as u64);
    let extra = read_opt_text(get_member(j, "prompt_extra", 8));
    let file = read_opt_text(get_member(j, "prompt_file", 9));
    match (enabled, knowledge_dir, model, idle, interval) {
        (Some(enabled), Some(knowledge_dir), Some(model), Some(idle), Some(interval)) => {
            match (turns, decisions, questions, extra, file) {
                (Some(turns), Some(decisions), Some(questions), Some(extra), Some(file)) => Some(
                    PartialConfig {
                        enabled,
                        knowledge_dir,
                        model,
                        idle_daemon_secs: idle,
                        min_interval_secs: interval,
                        obs_max_turns: to_small(turns),
                        max_decisions: to_count(decisions),
                        max_questions: to_count(questions),
                        prompt_extra: extra,
                        prompt_file: file,
                    },
                ),
                _ => None,
            }
        },
        _ => None,
    }
}

/// The text behind an optional reference.
pub open spec fn opt_str(o: Option<&str>) -> Option<Seq<char>> {
    match o {
        Some(s) => Some(s@),
        None => None,
    }
}

fn read_file(file_json: Option<&str>) -> (r: PartialConfig)
    ensures
        r@ == file_layer(opt_str(file_json)),
{
    let none = PartialConfig {
        enabled: None,
        knowledge_dir: None,
        model: None,
        idle_daemon_secs: None,
        min_interval_secs: None,
        obs_max_turns: None,
        max_decisions: None,
        max_questions: None,
        prompt_extra: None,
        prompt_file: None,
    };
    let s: &str = match file_json {
        Some(s) => s,
        None => return none,
    };
    let j: Json = match parse_json(s) {
        Some(j) => j,
        None => return none,
    };
    let keys: Vec<String> = vec![
        "enabled".to_owned(),
        "knowledge_dir".to_owned(),
        "model".to_owned(),
        "idle_daemon_secs".to_owned(),
        "min_interval_secs".to_owned(),
        "obs_max_turns".to_owned(),
        "max_decisions".to_owned(),
        "max_questions".to_owned(),
        "prompt_extra".to_owned(),
        "prompt_file".to_owned(),
    ];
    assert(texts(keys@) =~= file_keys());
    if has_repeated(s, &keys) {
        return none;
    }
    match read_layer(&j) {
        Some(l) => l,
        None => none,
    }
}

/// The settings of a project from its two sources.
pub fn resolve_layered(host: &str, env: &EnvLayer, file_json: Option<&str>) -> (r: Config)
    ensures
        r@ == resolved(host@, *env, opt_str(file_json)),
{
    let mut cfg: Config = Config::defaults(host);
    apply_layer(&mut cfg, read_env(env));
    apply_layer(&mut cfg, read_file(file_json));
    cfg
}

/// Whether the knowledge directory deserves a warning: it is absolute and comes from
/// the environment, so that every project would share it.
pub fn shared_dir_warning(file_json: Option<&str>, absolute: bool) -> (r: bool)
    ensures
        r == (absolute && file_layer(opt_str(file_json)).knowledge_dir is None),
{
    absolute && read_file(file_json).knowledge_dir.is_none()
}

/// Per key, what the project's file sets is what holds; what it leaves open and the
/// environment sets holds next; and the default holds for the rest.
pub proof fn file_over_env_over_default(host: Seq<char>, env: EnvLayer, file: Option<Seq<char>>)
    ensures
        ({
            let c = resolved(host, env, file);
            let f = file_layer(file);
            let e = env_layer(env);
            let d = default_config(host);
            &&& c.enabled == f.enabled.unwrap_or(e.enabled.unwrap_or(d.enabled))
            &&& c.knowledge_dir == f.knowledge_dir.unwrap_or(
                e.knowledge_dir.unwrap_or(d.knowledge_dir),
            )
            &&& c.model == (if f.model is Some {
                f.model
            } else {
                e.model
            })
            &&& c.idle_daemon_secs == f.idle_daemon_secs.unwrap_or(
                e.idle_daemon_secs.unwrap_or(d.idle_daemon_secs),
            )
            &&& c.min_interval_secs == f.min_interval_secs.unwrap_or(
                e.min_interval_secs.unwrap_or(d.min_interval_secs),
            )
            &&& c.obs_max_turns == f.obs_max_turns.unwrap_or(
                e.obs_max_turns.unwrap_or(d.obs_max_turns),
            )
            &&& c.max_decisions == f.max_decisions.unwrap_or(
                e.max_decisions.unwrap_or(d.max_decisions),
            )
            &&& c.max_questions == f.max_questions.unwrap_or(
                e.max_questions.unwrap_or(d.max_questions),
            )
            &&& c.prompt_extra == (if f.prompt_extra is Some {
                f.prompt_extra
            } else {
                e.prompt_extra
            })
            &&& c.prompt_file == (if f.prompt_file is Some {
                f.prompt_file
            } else {
                e.prompt_file
            })
        }),
{
}

// ---- the knowledge directory ----

/// On every platform the path is relative, and names no drive: it does not begin with a
/// separator, and holds no colon.
pub open spec fn plain(path: Seq<char>) -> bool {
    &&& path.len() > 0 ==> path[0] != '/' && path[0] != '\\'
    &&& !path.contains(':')
}

/// `std::path::Path::is_absolute`. What counts as absolute is a matter of the platform:
/// on Unix what starts with the root, on Windows what has a prefix and a root. Claimed is
/// that a path with neither is not.
#[verifier::external_body]
fn is_absolute(path: &str) -> (r: bool)
    ensures
        plain(path@) ==> !r,
{
    std::path::Path::new(path).is_absolute()
}

/// The path is a Windows path that is taken as it stands.
pub open spec fn verbatim(path: Seq<char>) -> bool {
    "\\\\?\\"@.is_prefix_of(path)
}

/// The path begins at the root, on every platform.
pub open spec fn rooted(path: Seq<char>) -> bool {
    path.len() > 0 && path[0] == '/'
}

/// On every platform the path names no drive and no share: it holds no colon, and does not
/// begin with two separators.
pub open spec fn no_prefix(path: Seq<char>) -> bool {
    &&& !path.contains(':')
    &&& !(path.len() >= 2 && (path[0] == '/' || path[0] == '\\') && (path[1] == '/' || path[1]
        == '\\'))
}

/// On every platform a separator is put between the path and a plain one behind it.
pub open spec fn needs_separator(base: Seq<char>) -> bool {
    &&& base.len() > 0
    &&& base.last() != '/' && base.last() != '\\'
    &&& !base.contains(':')
}

/// What is left of `base`, at most one separator, and `path`. Where `path` is plain, all of
/// `base` is left, and a separator follows unless `base` may do without; none follows an
/// empty `base` or one that ends in `/`.
pub open spec fn put_behind(
    base: Seq<char>,
    path: Seq<char>,
    r: Seq<char>,
    k: int,
    sep: Seq<char>,
) -> bool {
    &&& 0 <= k <= base.len()
    &&& plain(path) ==> k == base.len()
    &&& plain(path) && needs_separator(base) ==> sep.len() > 0
    &&& plain(path) && (base.len() == 0 || base.last() == '/') ==> sep.len() == 0
    &&& sep.len() == 0 || sep == "/"@ || sep == "\\"@
    &&& r == base.take(k) + sep + path
}

/// `r` is `path` put behind `base`, or behind the front part of it that `path` leaves.
pub open spec fn is_join(base: Seq<char>, path: Seq<char>, r: Seq<char>) -> bool {
    exists|k: int, sep: Seq<char>| put_behind(base, path, r, k, sep)
}

/// `std::path::Path::join`, as text. How paths are put together is a matter of the
/// platform: a path that is absolute replaces the base, one with a root alone replaces
/// all but its prefix, any other extends it. Claimed is that the result is the front part
/// of the base that is left, a separator where one is needed, and the path that was
/// added; that all of the base is left where the path has neither a prefix nor a root,
/// with a separator behind it unless it is empty, ends in one or may name a drive, and
/// none behind an empty base or one that ends in `/`; and that a path which begins with
/// `/` replaces a base without a prefix. Nothing is claimed for a verbatim Windows path as
/// the base, on which the added path is normalized.
#[verifier::external_body]
fn join_path(base: &str, path: &str) -> (r: String)
    ensures
        !verbatim(base@) ==> is_join(base@, path@, r@),
        rooted(path@) && no_prefix(base@) ==> r@ == path@,
{
    std::path::Path::new(base).join(path).to_string_lossy().into_owned()
}

/// The directory to use, given whether the setting is absolute and what it makes
/// together with the project's root.
pub open spec fn chosen_dir(dir: Seq<char>, absolute: bool, inside: Seq<char>) -> Seq<char> {
    if absolute {
        dir
    } else {
        inside
    }
}

/// Picks the knowledge directory: an absolute setting as it is, any other inside the
/// project.
pub fn pick_dir(dir: &str, absolute: bool, inside: &str) -> (r: String)
    ensures
        r@ == chosen_dir(dir@, absolute, inside@),
{
    if absolute {
        dir.to_owned()
    } else {
        inside.to_owned()
    }
}

/// `r` is the directory that the setting `dir` means in a project: the setting itself, or
/// the setting put behind the project's directory; always the latter for a plain setting,
/// and always the former for a rooted one, where the project's directory has no prefix.
pub open spec fn dir_in_project(project: Seq<char>, dir: Seq<char>, r: Seq<char>) -> bool {
    &&& !verbatim(project) ==> r == dir || is_join(project, dir, r)
    &&& !verbatim(project) && plain(dir) ==> is_join(project, dir, r)
    &&& rooted(dir) && no_prefix(project) ==> r == dir
}

/// A plain setting lies inside the project: behind its directory and a separator.
pub proof fn plain_setting_lies_inside(project: Seq<char>, dir: Seq<char>, r: Seq<char>)
    requires
        plain(dir),
        needs_separator(project),
        !verbatim(project),
        dir_in_project(project, dir, r),
    ensures
        r == project + "/"@ + dir || r == project + "\\"@ + dir,
{
    let (k, sep) = choose|k: int, sep: Seq<char>| put_behind(project, dir, r, k, sep);
    assert(project.take(k) =~= project);
}

/// Without settings every project keeps its knowledge inside itself, and no two projects
/// share a directory: the default is a plain path, as long as the name of the program that
/// the observer serves holds no colon.
pub proof fn default_keeps_projects_apart(
    host: Seq<char>,
    a: Seq<char>,
    b: Seq<char>,
    dir_a: Seq<char>,
    dir_b: Seq<char>,
)
    requires
        !host.contains(':'),
        needs_separator(a),
        needs_separator(b),
        !verbatim(a),
        !verbatim(b),
        dir_in_project(a, default_config(host).knowledge_dir, dir_a),
        dir_in_project(b, default_config(host).knowledge_dir, dir_b),
    ensures
        plain(default_config(host).knowledge_dir),
        a.is_prefix_of(dir_a),
        a != b ==> dir_a != dir_b,
{
    reveal_strlit(".");
    reveal_strlit("/knowledge");
    reveal_strlit("/");
    reveal_strlit("\\");
    let d = default_config(host).knowledge_dir;
    assert(d[0] == '.');
    if d.contains(':') {
        let i = choose|i: int| 0 <= i < d.len() && d[i] == ':';
        if 1 <= i < 1 + host.len() {
            assert(host[i - 1] == ':');
        } else if i >= 1 + host.len() {
            assert(d[i] == "/knowledge"@[i - 1 - host.len()]);
        }
    }
    plain_setting_lies_inside(a, d, dir_a);
    plain_setting_lies_inside(b, d, dir_b);
    assert(dir_a.take(a.len() as int) =~= a);
    assert(dir_b.take(b.len() as int) =~= b);
}

impl Config {
    /// The knowledge directory of a project: the setting where it is absolute, else the
    /// setting inside the project. Which paths are absolute, and how two are put
    /// together, is a matter of the platform; `pick_dir` says what is made of either. On
    /// every platform a plain setting lies inside the project, and a rooted one is used as
    /// it is where the project's directory has no prefix.
    pub fn knowledge_dir_abs(&self, project_dir: &str) -> (r: String)
        ensures
            dir_in_project(project_dir@, self.knowledge_dir@, r@),
            rooted(self.knowledge_dir@) && no_prefix(project_dir@) ==> r@ == self.knowledge_dir@,
    {
        let absolute: bool = is_absolute(&self.knowledge_dir);
        let inside: String = join_path(project_dir, &self.knowledge_dir);
        pick_dir(&self.knowledge_dir, absolute, &inside)
    }
}

} // verus!
