use knowledge_observer::observer::contract::{
    parse, ExtractionResult, Op, UpdateFields, EXTRACTION_PROMPT,
};

#[test]
fn parse_add_with_links() {
    let s = r#"{
      "ops": [
        { "action": "add", "typ": "decision", "inhalt": "Use WAL mode",
          "begruendung": "for concurrency", "tags": ["db"],
          "links": [ { "ziel": "SQLite chosen", "polaritaet": "supports", "als": "parent" } ] }
      ],
      "rolling_summary": "set up the DB"
    }"#;
    let r = parse(s);
    assert_eq!(r.rolling_summary, "set up the DB");
    assert_eq!(r.ops.len(), 1);
    match &r.ops[0] {
        Op::Add {
            typ,
            inhalt,
            begruendung,
            tags,
            links,
            ..
        } => {
            assert_eq!(typ, "decision");
            assert_eq!(inhalt, "Use WAL mode");
            assert_eq!(begruendung, "for concurrency");
            assert_eq!(tags, &vec!["db".to_string()]);
            assert_eq!(links.len(), 1);
            assert_eq!(links[0].ziel, "SQLite chosen");
            assert_eq!(links[0].polaritaet, "supports");
            assert_eq!(links[0].als, "parent");
        }
        other => panic!("expected Add, got {other:?}"),
    }
}

#[test]
fn parse_add_link_defaults() {
    // links may omit polaritaet/als; tags/links may be absent entirely.
    let s = r#"{ "ops": [
        { "action": "add", "typ": "fact", "inhalt": "X", "begruendung": "user said",
          "links": [ { "ziel": "node-1" } ] }
    ] }"#;
    let r = parse(s);
    match &r.ops[0] {
        Op::Add { links, tags, .. } => {
            assert!(tags.is_empty());
            assert_eq!(links[0].polaritaet, "supports");
            assert_eq!(links[0].als, "parent");
        }
        other => panic!("expected Add, got {other:?}"),
    }
}

#[test]
fn parse_update_partial_fields() {
    let s = r#"{ "ops": [
        { "action": "update", "id": "abc", "fields": { "inhalt": "new text", "ueberholt": true } }
    ] }"#;
    let r = parse(s);
    match &r.ops[0] {
        Op::Update { id, fields } => {
            assert_eq!(id, "abc");
            assert_eq!(fields.inhalt.as_deref(), Some("new text"));
            assert_eq!(fields.ueberholt, Some(true));
            // unset fields stay None
            assert_eq!(fields.begruendung, None);
            assert_eq!(fields.typ, None);
            assert_eq!(fields.tags, None);
            assert_eq!(fields.erledigt, None);
        }
        other => panic!("expected Update, got {other:?}"),
    }
}

#[test]
fn parse_update_no_fields() {
    // fields may be omitted entirely → default (all None).
    let s = r#"{ "ops": [ { "action": "update", "id": "abc" } ] }"#;
    let r = parse(s);
    match &r.ops[0] {
        Op::Update { id, fields } => {
            assert_eq!(id, "abc");
            assert_eq!(fields, &UpdateFields::default());
        }
        other => panic!("expected Update, got {other:?}"),
    }
}

#[test]
fn parse_link() {
    let s = r#"{ "ops": [
        { "action": "link", "von": "A", "zu": "B", "polaritaet": "contradicts" }
    ] }"#;
    let r = parse(s);
    match &r.ops[0] {
        Op::Link { von, zu, polaritaet } => {
            assert_eq!(von, "A");
            assert_eq!(zu, "B");
            assert_eq!(polaritaet, "contradicts");
        }
        other => panic!("expected Link, got {other:?}"),
    }
}

#[test]
fn parse_noop() {
    let s = r#"{ "ops": [ { "action": "noop" } ] }"#;
    let r = parse(s);
    assert_eq!(r.ops, vec![Op::Noop]);
}

#[test]
fn parse_chatty_prose_around_json() {
    let s = "Sure! Here is what I extracted:\n\n\
             { \"ops\": [ { \"action\": \"noop\" } ], \"rolling_summary\": \"nothing durable\" }\n\n\
             Let me know if you need anything else.";
    let r = parse(s);
    assert_eq!(r.ops, vec![Op::Noop]);
    assert_eq!(r.rolling_summary, "nothing durable");
}

#[test]
fn parse_json_code_fence() {
    let s = "```json\n{ \"ops\": [ { \"action\": \"add\", \"typ\": \"fact\", \
             \"inhalt\": \"Z\", \"begruendung\": \"src\" } ], \"rolling_summary\": \"s\" }\n```";
    let r = parse(s);
    assert_eq!(r.ops.len(), 1);
    assert_eq!(r.rolling_summary, "s");
    match &r.ops[0] {
        Op::Add { inhalt, .. } => assert_eq!(inhalt, "Z"),
        other => panic!("expected Add, got {other:?}"),
    }
}

#[test]
fn parse_braces_inside_strings() {
    // A `}` inside a string value must not end the object early.
    let s = r#"prefix { "ops": [], "rolling_summary": "uses a closing brace } in text" } suffix"#;
    let r = parse(s);
    assert!(r.ops.is_empty());
    assert_eq!(r.rolling_summary, "uses a closing brace } in text");
}

#[test]
fn parse_garbage_returns_default() {
    assert_eq!(parse("this is not json at all"), ExtractionResult::default());
    assert_eq!(parse(""), ExtractionResult::default());
    // malformed object → default, no panic
    assert_eq!(parse("{ not valid json"), ExtractionResult::default());
}

#[test]
fn parse_unknown_action_becomes_noop() {
    let s = r#"{ "ops": [ { "action": "frobnicate", "whatever": 1 } ] }"#;
    let r = parse(s);
    assert_eq!(r.ops, vec![Op::Noop]);
}

#[test]
fn parse_one_bad_op_does_not_poison_array() {
    // First op is malformed (missing required `inhalt`/`begruendung`),
    // it is dropped; the valid noop survives.
    let s = r#"{ "ops": [
        { "action": "add", "typ": "fact" },
        { "action": "noop" }
    ], "rolling_summary": "kept" }"#;
    let r = parse(s);
    assert_eq!(r.ops, vec![Op::Noop]);
    assert_eq!(r.rolling_summary, "kept");
}

#[test]
fn parse_rolling_summary_round_trips() {
    let s = r#"{ "ops": [], "rolling_summary": "the session set up DB + terminal" }"#;
    let r = parse(s);
    assert!(r.ops.is_empty());
    assert_eq!(r.rolling_summary, "the session set up DB + terminal");
}

#[test]
fn extraction_prompt_is_english_and_specifies_json() {
    assert!(EXTRACTION_PROMPT.contains("You are observing"));
    assert!(EXTRACTION_PROMPT.contains("rolling_summary"));
    assert!(EXTRACTION_PROMPT.contains("\"action\": \"add\""));
    // English schema codes appear in the JSON contract.
    assert!(EXTRACTION_PROMPT.contains("observation|fact|insight|decision|research|hypothesis"));
    assert!(EXTRACTION_PROMPT.contains("supports|contradicts|replaces"));
}

#[test]
fn extraction_prompt_carries_source_language_rule() {
    // The CRITICAL rule: content language follows the conversation, NOT this prompt.
    assert!(EXTRACTION_PROMPT.contains("SAME language as the conversation"));
    assert!(EXTRACTION_PROMPT.contains("Do NOT translate the content to English"));
    assert!(EXTRACTION_PROMPT.contains("must NOT change the language of what you record"));
}

#[test]
fn extraction_prompt_mentions_optional_hint() {
    assert!(EXTRACTION_PROMPT.contains("'hint'"));
    assert!(EXTRACTION_PROMPT.contains("SINGLE-LINE pointer"));
}

#[test]
fn parse_hint_when_present() {
    let s = r#"{ "ops": [], "rolling_summary": "s",
        "hint": "knowledge about pathfinding already exists" }"#;
    let r = parse(s);
    assert_eq!(r.hint, "knowledge about pathfinding already exists");
    assert_eq!(r.rolling_summary, "s");
}

#[test]
fn parse_add_with_quellen() {
    let s = r#"{ "ops": [
        { "action": "add", "typ": "fact", "inhalt": "X", "begruendung": "doc'd in F004",
          "quellen": [".host/features/F004-weapons.md", ".host/adr/003.md"] }
    ] }"#;
    let r = parse(s);
    match &r.ops[0] {
        Op::Add { quellen, .. } => {
            assert_eq!(
                quellen,
                &vec![
                    ".host/features/F004-weapons.md".to_string(),
                    ".host/adr/003.md".to_string()
                ]
            );
        }
        other => panic!("expected Add, got {other:?}"),
    }
}

#[test]
fn parse_add_quellen_absent_is_empty() {
    let s = r#"{ "ops": [
        { "action": "add", "typ": "fact", "inhalt": "X", "begruendung": "src" }
    ] }"#;
    let r = parse(s);
    match &r.ops[0] {
        Op::Add { quellen, .. } => assert!(quellen.is_empty()),
        other => panic!("expected Add, got {other:?}"),
    }
}

#[test]
fn parse_update_fields_quellen() {
    let s = r#"{ "ops": [
        { "action": "update", "id": "abc",
          "fields": { "quellen": [".host/features/observer.md"] } }
    ] }"#;
    let r = parse(s);
    match &r.ops[0] {
        Op::Update { fields, .. } => {
            assert_eq!(
                fields.quellen.as_deref(),
                Some(&[".host/features/observer.md".to_string()][..])
            );
        }
        other => panic!("expected Update, got {other:?}"),
    }
}

#[test]
fn extraction_prompt_mentions_documents_and_quellen() {
    assert!(EXTRACTION_PROMPT.contains("Available project documents"));
    assert!(EXTRACTION_PROMPT.contains("quellen"));
    assert!(EXTRACTION_PROMPT.contains("NEVER invented"));
}

#[test]
fn parse_hint_absent_defaults_empty() {
    let s = r#"{ "ops": [ { "action": "noop" } ], "rolling_summary": "s" }"#;
    let r = parse(s);
    assert_eq!(r.hint, "");
}
