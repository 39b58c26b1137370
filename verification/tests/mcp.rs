use knowledge_observer::json::{write_json, Json};
use knowledge_observer::mcp::{
    all_tools, handle_message, tool_response, McpStep, DEFAULT_PROTOCOL_VERSION, SERVER_NAME,
    SERVER_VERSION,
};
use knowledge_observer::store::scoring::{status_from, Balance};
use serde_json::Value;

fn parse(line: &str) -> Value {
    serde_json::from_str(line).unwrap()
}

fn reply(line: &str) -> String {
    match handle_message(line) {
        McpStep::Reply(r) => r,
        other => panic!("no reply: {other:?}"),
    }
}

#[test]
fn initialize_echoes_protocol_version_and_server_info() {
    let req = r#"{"jsonrpc":"2.0","id":1,"method":"initialize","params":{"protocolVersion":"2025-03-26","capabilities":{},"clientInfo":{"name":"host","version":"x"}}}"#;
    let resp = parse(&reply(req));
    assert_eq!(resp["id"], Value::from(1));
    assert_eq!(resp["result"]["protocolVersion"], Value::from("2025-03-26"));
    assert_eq!(resp["result"]["serverInfo"]["name"], Value::from(SERVER_NAME));
    // Must advertise the tools capability.
    assert!(resp["result"]["capabilities"]["tools"].is_object());
}

#[test]
fn initialize_falls_back_to_default_protocol_version() {
    let req = r#"{"jsonrpc":"2.0","id":2,"method":"initialize","params":{}}"#;
    let resp = parse(&reply(req));
    assert_eq!(resp["result"]["protocolVersion"], Value::from(DEFAULT_PROTOCOL_VERSION));
}

#[test]
fn write_tool_call_is_unknown_tool() {
    let req = r#"{"jsonrpc":"2.0","id":9,"method":"tools/call","params":{"name":"record_knowledge","arguments":{}}}"#;
    let resp = parse(&reply(req));
    assert!(resp.get("error").is_none(), "should be a tool error, not protocol error");
    assert_eq!(resp["result"]["isError"], Value::from(true));
    let text = resp["result"]["content"][0]["text"].as_str().unwrap();
    assert!(text.contains("unknown tool"), "got: {text}");
}

#[test]
fn unknown_method_is_method_not_found() {
    let req = r#"{"jsonrpc":"2.0","id":6,"method":"does/not/exist"}"#;
    let resp = parse(&reply(req));
    assert_eq!(resp["error"]["code"], Value::from(-32601));
    assert_eq!(resp["id"], Value::from(6));
}

#[test]
fn malformed_json_is_parse_error_with_null_id() {
    let resp = parse(&reply("{not valid json"));
    assert_eq!(resp["error"]["code"], Value::from(-32700));
    assert_eq!(resp["id"], Value::Null);
}

#[test]
fn string_ids_are_preserved() {
    let req = r#"{"jsonrpc":"2.0","id":"abc-1","method":"ping"}"#;
    let resp = parse(&reply(req));
    assert_eq!(resp["id"], Value::from("abc-1"));
    assert!(resp["result"].is_object());
}

#[test]
fn unknown_tool_is_tool_error_not_protocol_error() {
    let req = r#"{"jsonrpc":"2.0","id":5,"method":"tools/call","params":{"name":"nope","arguments":{}}}"#;
    let resp = parse(&reply(req));
    assert!(resp.get("error").is_none());
    assert_eq!(resp["result"]["isError"], Value::from(true));
}

#[test]
fn notification_without_id_gets_no_response() {
    let note = r#"{"jsonrpc":"2.0","method":"notifications/initialized"}"#;
    assert!(matches!(handle_message(note), McpStep::Silent));
}

#[test]
fn tools_list_is_read_only_exactly() {
    let tools: Vec<Value> = all_tools().into_iter().map(|t| parse(&write_json(t))).collect();
    let names: Vec<&str> = tools.iter().filter_map(|t| t["name"].as_str()).collect();
    // All read tools + health check present.
    for expected in [
        "knowledge_ping",
        "query_knowledge",
        "get_knowledge",
        "current_knowledge",
        "list_documents",
    ] {
        assert!(names.contains(&expected), "missing tool {expected}; got {names:?}");
    }
    // No write tool leaked in.
    for write in [
        "record_knowledge",
        "add_fact",
        "update_knowledge",
        "link",
        "merge_knowledge",
    ] {
        assert!(!names.contains(&write), "write tool {write} must not be exposed; got {names:?}");
    }
    // Exactly five tools, all with an input schema.
    assert_eq!(names.len(), 5, "expected exactly 5 read tools; got {names:?}");
    assert!(tools.iter().all(|t| t["inputSchema"].is_object()));
    // Loaded eagerly so the model can call them without a ToolSearch step.
    assert!(tools.iter().all(|t| t["_meta"]["anthropic/alwaysLoad"] == Value::from(true)));
}

#[test]
fn tools_list_replies_with_every_tool() {
    let resp = parse(&reply(r#"{"jsonrpc":"2.0","id":3,"method":"tools/list"}"#));
    assert_eq!(resp["result"]["tools"].as_array().unwrap().len(), 5);
    assert_eq!(resp["result"]["tools"][1]["name"], Value::from("query_knowledge"));
    assert_eq!(resp["jsonrpc"], Value::from("2.0"));
}

#[test]
fn every_advertised_tool_asks_the_store_to_read() {
    let ops = ["ping", "query", "get", "current_state", "list_documents"];
    let names = [
        "knowledge_ping",
        "query_knowledge",
        "get_knowledge",
        "current_knowledge",
        "list_documents",
    ];
    for (name, expected) in names.iter().zip(ops) {
        let req = format!(
            r#"{{"jsonrpc":"2.0","id":4,"method":"tools/call","params":{{"name":"{name}","arguments":{{"q":"x"}}}}}}"#
        );
        match handle_message(&req) {
            McpStep::Call { id, op, args } => {
                assert_eq!(op, expected);
                assert_eq!(write_json(id), "4");
                assert_eq!(write_json(args), r#"{"q":"x"}"#);
            }
            other => panic!("{name}: {other:?}"),
        }
    }
}

#[test]
fn a_call_without_arguments_asks_with_an_empty_object() {
    let req = r#"{"jsonrpc":"2.0","id":4,"method":"tools/call","params":{"name":"knowledge_ping"}}"#;
    match handle_message(req) {
        McpStep::Call { args, .. } => assert_eq!(write_json(args), "{}"),
        other => panic!("{other:?}"),
    }
}

#[test]
fn store_answers_become_tool_results() {
    let ok = parse(&tool_response(Json::Number("7".into()), Ok("{\"a\": 1}".into())));
    assert_eq!(ok["id"], Value::from(7));
    assert_eq!(ok["result"]["isError"], Value::from(false));
    assert_eq!(ok["result"]["content"][0]["type"], Value::from("text"));
    assert_eq!(ok["result"]["content"][0]["text"], Value::from("{\"a\": 1}"));
    let err = parse(&tool_response(Json::Null, Err(Some("boom".into()))));
    assert_eq!(err["result"]["isError"], Value::from(true));
    assert_eq!(err["result"]["content"][0]["text"], Value::from("boom"));
    let none = parse(&tool_response(Json::Null, Err(None)));
    assert_eq!(none["result"]["content"][0]["text"], Value::from("knowledge op failed"));
}

#[test]
fn server_info_names_the_version() {
    let req = r#"{"jsonrpc":"2.0","id":1,"method":"initialize"}"#;
    let resp = parse(&reply(req));
    assert_eq!(resp["result"]["serverInfo"]["version"], Value::from(SERVER_VERSION));
}

#[test]
fn the_statuses_that_are_offered_are_those_that_scoring_gives() {
    let resp = parse(&reply(r#"{"jsonrpc":"2.0","id":1,"method":"tools/list"}"#));
    let tools = resp["result"]["tools"].as_array().unwrap();
    let query = tools.iter().find(|t| t["name"] == "query_knowledge").unwrap();
    let offered = &query["inputSchema"]["properties"]["status"]["enum"];
    let given = [Balance::Supported, Balance::Disputed, Balance::Refuted, Balance::Little];
    assert_eq!(*offered, Value::from(given.map(|b| Value::from(status_from(b))).to_vec()));
}
