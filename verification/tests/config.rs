use std::path::Path;

use knowledge_observer::config::{
    env_names, first_set, host_dir, lower_ascii, parse_bool, parse_unsigned, resolve_layered,
    shared_dir_warning, Config, EnvLayer,
};

const HOST: &str = "host";

#[test]
fn defaults_when_nothing_set() {
    let cfg = resolve_layered(HOST, &EnvLayer::default(), None);
    assert_eq!(cfg, Config::defaults(HOST));
    assert!(!Path::new(&cfg.knowledge_dir).is_absolute(), "default is relative");
}

#[test]
fn env_overrides_defaults() {
    let env = EnvLayer {
        knowledge_dir: Some(".host/knowledge".to_string()),
        idle_daemon_secs: Some("1200".to_string()),
        enabled: Some("false".to_string()),
        ..EnvLayer::default()
    };
    let cfg = resolve_layered(HOST, &env, None);
    assert_eq!(cfg.knowledge_dir, ".host/knowledge");
    assert_eq!(cfg.idle_daemon_secs, 1200);
    assert!(!cfg.enabled);
}

#[test]
fn project_file_wins_over_env() {
    let env = EnvLayer {
        knowledge_dir: Some(".host/knowledge".to_string()),
        model: Some("from-env".to_string()),
        ..EnvLayer::default()
    };
    let file = r#"{ "knowledge_dir": "D:/wissen/projA", "max_decisions": 5 }"#;
    let cfg = resolve_layered(HOST, &env, Some(file));
    // Per-project file wins for knowledge_dir.
    assert_eq!(cfg.knowledge_dir, "D:/wissen/projA");
    // Env still applies where the file is silent.
    assert_eq!(cfg.model.as_deref(), Some("from-env"));
    assert_eq!(cfg.max_decisions, 5);
}

#[test]
fn relative_knowledge_dir_resolves_per_project() {
    let cfg = Config::defaults(HOST);
    let abs = cfg.knowledge_dir_abs("/projects/alpha");
    assert!(Path::new(&abs).ends_with("knowledge"));
    assert!(Path::new(&abs).starts_with("/projects/alpha") || abs.contains("alpha"));
}

#[test]
fn absolute_knowledge_dir_used_as_is() {
    let mut cfg = Config::defaults(HOST);
    cfg.knowledge_dir = "/var/knowledge".to_string();
    let abs = cfg.knowledge_dir_abs("/projects/alpha");
    assert_eq!(Path::new(&abs), Path::new("/var/knowledge"));
}

#[test]
fn a_relative_knowledge_dir_is_joined_with_one_separator() {
    let mut cfg = Config::defaults(HOST);
    cfg.knowledge_dir = "deep/store".to_string();
    assert_eq!(cfg.knowledge_dir_abs("/projects/alpha"), "/projects/alpha/deep/store");
    assert_eq!(cfg.knowledge_dir_abs("/projects/alpha/"), "/projects/alpha/deep/store");
    assert_eq!(cfg.knowledge_dir_abs(""), "deep/store");
}

#[test]
fn a_rooted_knowledge_dir_leaves_nothing_of_the_project() {
    let mut cfg = Config::defaults(HOST);
    for (dir, project) in [("/var/k", "/projects/alpha"), ("/k", "alpha"), ("/k", "")] {
        cfg.knowledge_dir = dir.to_string();
        assert_eq!(cfg.knowledge_dir_abs(project), dir);
    }
    let own = Config::defaults(HOST);
    assert_ne!(own.knowledge_dir_abs("/projects/alpha"), own.knowledge_dir_abs("/projects/beta"));
}

#[test]
fn malformed_file_is_ignored() {
    let cfg = resolve_layered(HOST, &EnvLayer::default(), Some("{ not json"));
    assert_eq!(cfg, Config::defaults(HOST));
}

#[test]
fn defaults_are_the_documented_ones() {
    let cfg = Config::defaults(HOST);
    assert_eq!(host_dir(HOST), ".host");
    assert_eq!(cfg.knowledge_dir, ".host/knowledge");
    assert!(cfg.enabled);
    assert_eq!(cfg.model, None);
    assert_eq!(cfg.idle_daemon_secs, 600);
    assert_eq!(cfg.min_interval_secs, 45);
    assert_eq!(cfg.obs_max_turns, 30);
    assert_eq!(cfg.max_decisions, 15);
    assert_eq!(cfg.max_questions, 15);
    assert_eq!(cfg.prompt_extra, None);
    assert_eq!(cfg.prompt_file, None);
    assert_eq!(cfg.knowledge_dir_abs("/p"), "/p/.host/knowledge");
}

#[test]
fn a_file_that_repeats_a_key_is_ignored() {
    let file = r#"{ "model": "a", "model": "b", "max_decisions": 5 }"#;
    let cfg = resolve_layered(HOST, &EnvLayer::default(), Some(file));
    assert_eq!(cfg, Config::defaults(HOST));
    let file = r#"{ "other": "a", "other": "b", "max_decisions": 5 }"#;
    let cfg = resolve_layered(HOST, &EnvLayer::default(), Some(file));
    assert_eq!(cfg.max_decisions, 5);
}

#[test]
fn a_file_with_a_wrong_type_is_ignored() {
    for file in [
        r#"{ "max_decisions": -1 }"#,
        r#"{ "obs_max_turns": 4294967296 }"#,
        r#"{ "enabled": "yes" }"#,
        r#"{ "model": 3 }"#,
        r#"{ "idle_daemon_secs": 1.5 }"#,
        "3",
    ] {
        let cfg = resolve_layered(HOST, &EnvLayer::default(), Some(file));
        assert_eq!(cfg, Config::defaults(HOST), "{file}");
    }
    let cfg = resolve_layered(HOST, &EnvLayer::default(), Some(r#"{ "model": null, "enabled": false }"#));
    assert!(!cfg.enabled);
}

#[test]
fn bad_numbers_in_the_environment_leave_the_default() {
    let env = EnvLayer {
        idle_daemon_secs: Some("many".to_string()),
        obs_max_turns: Some("4294967296".to_string()),
        min_interval_secs: Some("+7".to_string()),
        enabled: Some("maybe".to_string()),
        ..EnvLayer::default()
    };
    let cfg = resolve_layered(HOST, &env, None);
    assert_eq!(cfg.idle_daemon_secs, 600);
    assert_eq!(cfg.obs_max_turns, 30);
    assert_eq!(cfg.min_interval_secs, 7);
    assert!(cfg.enabled);
}

#[test]
fn flags_and_numbers_are_read_from_text() {
    for yes in ["1", "true", " Yes ", "ON"] {
        assert_eq!(parse_bool(yes), Some(true), "{yes}");
    }
    for no in ["0", "FALSE", "no", "off\n"] {
        assert_eq!(parse_bool(no), Some(false), "{no}");
    }
    assert_eq!(parse_bool("y"), None);
    assert_eq!(parse_bool(""), None);
    assert_eq!(parse_unsigned("18446744073709551615", u64::MAX), Some(u64::MAX));
    assert_eq!(parse_unsigned("18446744073709551616", u64::MAX), None);
    assert_eq!(parse_unsigned("0009", 9), Some(9));
    assert_eq!(parse_unsigned("10", 9), None);
    assert_eq!(parse_unsigned("-0", 9), None);
    assert_eq!(parse_unsigned("", 9), None);
    assert_eq!(parse_unsigned("+", 9), None);
    assert_eq!(lower_ascii("AZaz\u{c4}"), "azaz\u{c4}");
}

#[test]
fn the_first_filled_variable_counts() {
    assert_eq!(
        env_names("model", "MODEL"),
        vec!["CLAUDE_PLUGIN_OPTION_model", "CLAUDE_PLUGIN_OPTION_MODEL", "OBSERVER_MODEL"]
    );
    let some = |s: &str| Some(s.to_string());
    assert_eq!(first_set(&vec![None, some("  "), some(" x "), some("y")]), some(" x "));
    assert_eq!(first_set(&vec![None, some("")]), None);
}

#[test]
fn only_an_absolute_directory_from_the_environment_is_warned_of() {
    assert!(shared_dir_warning(None, true));
    assert!(shared_dir_warning(Some(r#"{ "model": "m" }"#), true));
    assert!(!shared_dir_warning(Some(r#"{ "knowledge_dir": "/var/k" }"#), true));
    assert!(!shared_dir_warning(None, false));
}
