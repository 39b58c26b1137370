//! The read-only tool server: one JSON-RPC message per line. Only tools that read are
//! offered, and only those can be called.

use vstd::prelude::*;
use vstd::string::StringExecFns;

use crate::json::{
    field, field_views, item_views, json_error, json_of_text, settled, text_field, try_parse_json,
    write_json, written, Json, JsonView, MAX_DEPTH,
};
use crate::text;

verus! {

broadcast use {crate::json::lemma_array_view, crate::json::lemma_object_view};

/// The name under which the server introduces itself.
pub const SERVER_NAME: &'static str = "knowledge-observer";

/// The version of the server.
pub const SERVER_VERSION: &'static str = "0.1.0";

/// The protocol version where the client asks for none.
pub const DEFAULT_PROTOCOL_VERSION: &'static str = "2025-06-18";

// ---- building values ----

/// A text as a value.
pub open spec fn s(t: Seq<char>) -> JsonView {
    JsonView::Str(t)
}

/// A list of fields under construction.
struct Fields {
    list: Vec<(String, Json)>,
}

impl Fields {
    spec fn view(&self) -> Seq<(Seq<char>, JsonView)> {
        field_views(self.list@)
    }

    fn new() -> (r: Fields)
        ensures
            r@ == Seq::<(Seq<char>, JsonView)>::empty(),
    {
        let r = Fields { list: Vec::new() };
        assert(r@ =~= Seq::empty());
        r
    }

    fn with(self, key: &str, value: Json) -> (r: Fields)
        ensures
            r@ == self@.push((key@, value@)),
    {
        let mut list: Vec<(String, Json)> = self.list;
        let ghost before = list@;
        list.push((key.to_owned(), value));
        assert(field_views(list@) =~= field_views(before).push((key@, value@)));
        Fields { list }
    }

    fn with_text(self, key: &str, value: &str) -> (r: Fields)
        ensures
            r@ == self@.push((key@, JsonView::Str(value@))),
    {
        self.with(key, Json::Str(value.to_owned()))
    }

    fn done(self) -> (r: Json)
        ensures
            r@ == JsonView::Obj(self@),
    {
        Json::Obj(self.list)
    }
}

/// An array of texts.
pub open spec fn text_array(v: Seq<Seq<char>>) -> JsonView {
    JsonView::Arr(v.map_values(|t: Seq<char>| JsonView::Str(t)))
}

fn make_array(v: Vec<&str>) -> (r: Json)
    ensures
        r@ == text_array(v@.map_values(|t: &str| t@)),
{
    let mut out: Vec<Json> = Vec::new();
    let mut i: usize = 0;
    while i < v.len()
        invariant
            i <= v.len(),
            out.len() == i,
            forall|k: int| 0 <= k < i ==> (#[trigger] out@[k])@ == JsonView::Str(v@[k]@),
        decreases v.len() - i,
    {
        out.push(Json::Str(v[i].to_owned()));
        i += 1;
    }
    assert(item_views(out@) =~= v@.map_values(|t: &str| t@).map_values(
        |t: Seq<char>| JsonView::Str(t),
    ));
    Json::Arr(out)
}

// ---- the tools ----

/// A tool as it is advertised; it is loaded without having to be searched for.
pub open spec fn tool_json(name: Seq<char>, description: Seq<char>, schema: JsonView) -> JsonView {
    JsonView::Obj(
        seq![
            ("_meta"@, JsonView::Obj(seq![("anthropic/alwaysLoad"@, JsonView::Bool(true))])),
            ("description"@, s(description)),
            ("inputSchema"@, schema),
            ("name"@, s(name)),
        ],
    )
}

fn tool(name: &str, description: &str, schema: Json) -> (r: Json)
    ensures
        r@ == tool_json(name@, description@, schema@),
{
    let meta: Json = Fields::new().with("anthropic/alwaysLoad", Json::Bool(true)).done();
    assert(meta@->Obj_0 =~= seq![("anthropic/alwaysLoad"@, JsonView::Bool(true))]);
    let r: Json = Fields::new().with("_meta", meta).with_text("description", description).with(
        "inputSchema",
        schema,
    ).with_text("name", name).done();
    assert(r@->Obj_0 =~= tool_json(name@, description@, schema@)->Obj_0);
    r
}

/// The schema of a tool without arguments.
pub open spec fn no_args_schema() -> JsonView {
    JsonView::Obj(
        seq![
            ("additionalProperties"@, JsonView::Bool(false)),
            ("properties"@, JsonView::Obj(Seq::empty())),
            ("type"@, s("object"@)),
        ],
    )
}

fn no_args() -> (r: Json)
    ensures
        r@ == no_args_schema(),
{
    let r: Json = Fields::new().with("additionalProperties", Json::Bool(false)).with(
        "properties",
        Fields::new().done(),
    ).with_text("type", "object").done();
    assert(r@->Obj_0 =~= no_args_schema()->Obj_0);
    r
}

/// An argument of a simple type.
pub open spec fn argument(kind: Seq<char>, description: Seq<char>) -> JsonView {
    JsonView::Obj(seq![("description"@, s(description)), ("type"@, s(kind))])
}

fn make_argument(kind: &str, description: &str) -> (r: Json)
    ensures
        r@ == argument(kind@, description@),
{
    let r: Json = Fields::new().with_text("description", description).with_text(
        "type",
        kind,
    ).done();
    assert(r@->Obj_0 =~= argument(kind@, description@)->Obj_0);
    r
}

/// An argument that is a list of texts.
pub open spec fn list_argument(description: Seq<char>) -> JsonView {
    JsonView::Obj(
        seq![
            ("description"@, s(description)),
            ("items"@, JsonView::Obj(seq![("type"@, s("string"@))])),
            ("type"@, s("array"@)),
        ],
    )
}

fn make_list_argument(description: &str) -> (r: Json)
    ensures
        r@ == list_argument(description@),
{
    let items: Json = Fields::new().with_text("type", "string").done();
    assert(items@->Obj_0 =~= seq![("type"@, s("string"@))]);
    let r: Json = Fields::new().with_text("description", description).with(
        "items",
        items,
    ).with_text("type", "array").done();
    assert(r@->Obj_0 =~= list_argument(description@)->Obj_0);
    r
}

/// An argument that is one of some words.
pub open spec fn choice_argument(choices: Seq<Seq<char>>) -> JsonView {
    JsonView::Obj(seq![("enum"@, text_array(choices)), ("type"@, s("string"@))])
}

fn make_choice_argument(choices: Vec<&str>) -> (r: Json)
    ensures
        r@ == choice_argument(choices@.map_values(|t: &str| t@)),
{
    let ghost c = choices@.map_values(|t: &str| t@);
    let r: Json = Fields::new().with("enum", make_array(choices)).with_text(
        "type",
        "string",
    ).done();
    assert(r@->Obj_0 =~= choice_argument(c)->Obj_0);
    r
}

/// The types that a query can ask for.
pub open spec fn type_choices() -> Seq<Seq<char>> {
    seq![
        "entscheidung"@,
        "erkenntnis"@,
        "fakt"@,
        "beobachtung"@,
        "recherche"@,
        "vermutung"@,
    ]
}

/// The statuses that a query can ask for: those that scoring gives to what is not retired.
pub open spec fn status_choices() -> Seq<Seq<char>> {
    seq!["supported"@, "disputed"@, "refuted"@, "unsupported"@]
}

/// The schema of the overview.
pub open spec fn query_schema() -> JsonView {
    JsonView::Obj(
        seq![
            ("additionalProperties"@, JsonView::Bool(false)),
            (
                "properties"@,
                JsonView::Obj(
                    seq![
                        (
                            "limit"@,
                            argument("integer"@, "Keep only the top-N matches by score."@),
                        ),
                        (
                            "q"@,
                            argument(
                                "string"@,
                                "Keyword matched in node content (case-insensitive)."@,
                            ),
                        ),
                        ("status"@, choice_argument(status_choices())),
                        (
                            "tags"@,
                            list_argument("Match nodes carrying ANY of these topic/area tags."@),
                        ),
                        ("typ"@, choice_argument(type_choices())),
                    ],
                ),
            ),
            ("type"@, s("object"@)),
        ],
    )
}

fn make_query_schema() -> (r: Json)
    ensures
        r@ == query_schema(),
{
    let statuses: Vec<&str> = vec!["supported", "disputed", "refuted", "unsupported"];
    assert(statuses@.map_values(|t: &str| t@) =~= status_choices());
    let types: Vec<&str> = vec![
        "entscheidung",
        "erkenntnis",
        "fakt",
        "beobachtung",
        "recherche",
        "vermutung",
    ];
    assert(types@.map_values(|t: &str| t@) =~= type_choices());
    let properties: Json = Fields::new().with(
        "limit",
        make_argument("integer", "Keep only the top-N matches by score."),
    ).with(
        "q",
        make_argument("string", "Keyword matched in node content (case-insensitive)."),
    ).with("status", make_choice_argument(statuses)).with(
        "tags",
        make_list_argument("Match nodes carrying ANY of these topic/area tags."),
    ).with("typ", make_choice_argument(types)).done();
    assert(properties@->Obj_0 =~= query_schema()->Obj_0[1].1->Obj_0);
    let r: Json = Fields::new().with("additionalProperties", Json::Bool(false)).with(
        "properties",
        properties,
    ).with_text("type", "object").done();
    assert(r@->Obj_0 =~= query_schema()->Obj_0);
    r
}

/// The schema of the deep fetch.
pub open spec fn get_schema() -> JsonView {
    JsonView::Obj(
        seq![
            ("additionalProperties"@, JsonView::Bool(false)),
            (
                "properties"@,
                JsonView::Obj(
                    seq![
                        (
                            "depth"@,
                            argument("integer"@, "Neighbourhood hops to include (default 1)."@),
                        ),
                        (
                            "ids"@,
                            list_argument("Node ids (from query_knowledge) to fetch in full."@),
                        ),
                    ],
                ),
            ),
            ("required"@, text_array(seq!["ids"@])),
            ("type"@, s("object"@)),
        ],
    )
}

fn make_get_schema() -> (r: Json)
    ensures
        r@ == get_schema(),
{
    let properties: Json = Fields::new().with(
        "depth",
        make_argument("integer", "Neighbourhood hops to include (default 1)."),
    ).with("ids", make_list_argument("Node ids (from query_knowledge) to fetch in full.")).done();
    assert(properties@->Obj_0 =~= get_schema()->Obj_0[1].1->Obj_0);
    let required: Vec<&str> = vec!["ids"];
    assert(required@.map_values(|t: &str| t@) =~= seq!["ids"@]);
    let r: Json = Fields::new().with("additionalProperties", Json::Bool(false)).with(
        "properties",
        properties,
    ).with("required", make_array(required)).with_text("type", "object").done();
    assert(r@->Obj_0 =~= get_schema()->Obj_0);
    r
}

/// What the tools say of themselves.
pub const PING_TEXT: &'static str =
    "Health check for the knowledge graph service. Returns a pong. Use to confirm the knowledge tools are reachable.";

pub const QUERY_TEXT: &'static str =
    "COMPACT overview / search of the project's knowledge graph: each node as id + typ + status + score + short title + tags (NO begruendung, truncated inhalt) plus compact edges and questions — cheap even for large graphs. Use it to see WHAT EXISTS and to pick ids. Consult it BEFORE answering, deciding or recording. Narrow with 'q' (keyword), 'typ', 'status', 'tags' (any of), 'limit' (top-N by score); matches include direct neighbours. Then fetch FULL detail (begruendung/quellen/full inhalt + sub-DAG) for chosen ids via get_knowledge.";

pub const GET_TEXT: &'static str =
    "Deep fetch by id: return FULL nodes (with begruendung, quellen, full inhalt, session origin) for the given ids PLUS their neighbourhood up to 'depth' hops (supporting evidence / the decisions they support). This is how you pull detail after spotting relevant ids in query_knowledge.";

pub const CURRENT_TEXT: &'static str =
    "\"What holds right now\": the project's ACTIVE (non-superseded) decisions plus the open questions with their currently leading value. Use this on re-entry / at the start of a work session to get the current state without reading the whole history.";

pub const DOCUMENTS_TEXT: &'static str =
    "List the project's indexed documents (specs, ADRs, feature docs, notes — auto-scanned from project subfolders) that you can cite as sources. Returns each document's id (= path), titel and art. Use an id in the 'quellen' parameter of record_knowledge / add_fact to ground a node in a real document.";

/// The tools that are offered.
pub open spec fn tool_list() -> Seq<JsonView> {
    seq![
        tool_json("knowledge_ping"@, PING_TEXT@, no_args_schema()),
        tool_json("query_knowledge"@, QUERY_TEXT@, query_schema()),
        tool_json("get_knowledge"@, GET_TEXT@, get_schema()),
        tool_json("current_knowledge"@, CURRENT_TEXT@, no_args_schema()),
        tool_json("list_documents"@, DOCUMENTS_TEXT@, no_args_schema()),
    ]
}

/// The tools that are offered: a health check and those that read.
pub fn all_tools() -> (r: Vec<Json>)
    ensures
        item_views(r@) == tool_list(),
{
    let r: Vec<Json> = vec![
        tool("knowledge_ping", PING_TEXT, no_args()),
        tool("query_knowledge", QUERY_TEXT, make_query_schema()),
        tool("get_knowledge", GET_TEXT, make_get_schema()),
        tool("current_knowledge", CURRENT_TEXT, no_args()),
        tool("list_documents", DOCUMENTS_TEXT, no_args()),
    ];
    assert(item_views(r@) =~= tool_list());
    r
}

/// The request to the store that a tool stands for. Tools that write stand for none.
pub open spec fn op_of_tool(name: Seq<char>) -> Option<Seq<char>> {
    if name == "query_knowledge"@ {
        Some("query"@)
    } else if name == "get_knowledge"@ {
        Some("get"@)
    } else if name == "current_knowledge"@ {
        Some("current_state"@)
    } else if name == "list_documents"@ {
        Some("list_documents"@)
    } else if name == "knowledge_ping"@ {
        Some("ping"@)
    } else {
        None
    }
}

// ---- messages ----

/// A successful reply.
pub open spec fn result_json(id: JsonView, result: JsonView) -> JsonView {
    JsonView::Obj(seq![("id"@, id), ("jsonrpc"@, s("2.0"@)), ("result"@, result)])
}

/// A refusal of the message itself.
pub open spec fn error_json(id: JsonView, code: Seq<char>, message: Seq<char>) -> JsonView {
    JsonView::Obj(
        seq![
            (
                "error"@,
                JsonView::Obj(
                    seq![("code"@, JsonView::Number(code)), ("message"@, s(message))],
                ),
            ),
            ("id"@, id),
            ("jsonrpc"@, s("2.0"@)),
        ],
    )
}

/// The result of a tool: a text, and whether it reports an error.
pub open spec fn content_json(t: Seq<char>, is_error: bool) -> JsonView {
    JsonView::Obj(
        seq![
            (
                "content"@,
                JsonView::Arr(
                    seq![JsonView::Obj(seq![("text"@, s(t)), ("type"@, s("text"@))])],
                ),
            ),
            ("isError"@, JsonView::Bool(is_error)),
        ],
    )
}

/// The introduction of the server. The client's protocol version is echoed.
pub open spec fn initialize_json(params: Option<JsonView>) -> JsonView {
    let version = match params {
        Some(p) => match text_field(p, "protocolVersion"@) {
            Some(v) => v,
            None => DEFAULT_PROTOCOL_VERSION@,
        },
        None => DEFAULT_PROTOCOL_VERSION@,
    };
    JsonView::Obj(
        seq![
            (
                "capabilities"@,
                JsonView::Obj(seq![("tools"@, JsonView::Obj(Seq::empty()))]),
            ),
            ("protocolVersion"@, s(version)),
            (
                "serverInfo"@,
                JsonView::Obj(
                    seq![("name"@, s(SERVER_NAME@)), ("version"@, s(SERVER_VERSION@))],
                ),
            ),
        ],
    )
}

/// What is done with a message.
pub enum StepView {
    Silent,
    Reply(JsonView),
    Call { id: JsonView, op: Seq<char>, args: JsonView },
}

/// The name of the tool that is called.
pub open spec fn tool_name(params: Option<JsonView>) -> Seq<char> {
    match params {
        Some(p) => match text_field(p, "name"@) {
            Some(n) => n,
            None => Seq::empty(),
        },
        None => Seq::empty(),
    }
}

/// The arguments of the tool that is called; an empty object where there are none.
pub open spec fn tool_args(params: Option<JsonView>) -> JsonView {
    match params {
        Some(p) => match field(p, "arguments"@) {
            Some(a) => a,
            None => JsonView::Obj(Seq::empty()),
        },
        None => JsonView::Obj(Seq::empty()),
    }
}

/// What is done with a call of a tool. An unknown tool is an error of the tool, not of the
/// message.
pub open spec fn call_step(id: JsonView, params: Option<JsonView>) -> StepView {
    let name = tool_name(params);
    match op_of_tool(name) {
        Some(op) => StepView::Call { id, op, args: tool_args(params) },
        None => StepView::Reply(result_json(id, content_json("unknown tool: "@ + name, true))),
    }
}

/// What is done with a message. A notification, which has no id, gets no reply.
pub open spec fn message_step(line: Seq<char>) -> StepView {
    match json_of_text(line) {
        None => StepView::Reply(
            error_json(JsonView::Null, "-32700"@, "parse error: "@ + json_error(line)),
        ),
        Some(msg) => match field(msg, "id"@) {
            None => StepView::Silent,
            Some(id) => {
                let method = match text_field(msg, "method"@) {
                    Some(m) => m,
                    None => Seq::empty(),
                };
                let params = field(msg, "params"@);
                if method == "initialize"@ {
                    StepView::Reply(result_json(id, initialize_json(params)))
                } else if method == "ping"@ {
                    StepView::Reply(result_json(id, JsonView::Obj(Seq::empty())))
                } else if method == "tools/list"@ {
                    StepView::Reply(
                        result_json(
                            id,
                            JsonView::Obj(seq![("tools"@, JsonView::Arr(tool_list()))]),
                        ),
                    )
                } else if method == "tools/call"@ {
                    call_step(id, params)
                } else {
                    StepView::Reply(
                        error_json(id, "-32601"@, "method not found: "@ + method),
                    )
                }
            },
        },
    }
}

/// What is done with a message.
#[derive(Debug)]
pub enum McpStep {
    /// Nothing is replied.
    Silent,
    /// A line is replied.
    Reply(String),
    /// The store is asked, and its answer is replied.
    Call { id: Json, op: String, args: Json },
}

/// The line is the value as JSON, and the value can be read back from it.
pub open spec fn is_line(line: Seq<char>, j: JsonView) -> bool {
    line == written(j) && (settled(j, MAX_DEPTH as nat) ==> json_of_text(line) == Some(j))
}

/// The step is the one described.
pub open spec fn takes_step(r: McpStep, v: StepView) -> bool {
    match v {
        StepView::Silent => r is Silent,
        StepView::Reply(j) => r matches McpStep::Reply(line) && is_line(line@, j),
        StepView::Call { id, op, args } => r matches McpStep::Call { id: i, op: o, args: a } && i@
            == id && o@ == op && a@ == args,
    }
}

fn make_result(id: Json, result: Json) -> (r: Json)
    ensures
        r@ == result_json(id@, result@),
{
    let r: Json = Fields::new().with("id", id).with_text("jsonrpc", "2.0").with(
        "result",
        result,
    ).done();
    assert(r@->Obj_0 =~= result_json(id@, result@)->Obj_0);
    r
}

fn result_response(id: Json, result: Json) -> (r: String)
    ensures
        is_line(r@, result_json(id@, result@)),
{
    write_json(make_result(id, result))
}

fn error_response(id: Json, code: &str, message: &str) -> (r: String)
    ensures
        is_line(r@, error_json(id@, code@, message@)),
{
    let error: Json = Fields::new().with("code", Json::Number(code.to_owned())).with_text(
        "message",
        message,
    ).done();
    assert(error@->Obj_0 =~= seq![
        ("code"@, JsonView::Number(code@)),
        ("message"@, s(message@)),
    ]);
    let r: Json = Fields::new().with("error", error).with("id", id).with_text(
        "jsonrpc",
        "2.0",
    ).done();
    assert(r@->Obj_0 =~= error_json(id@, code@, message@)->Obj_0);
    write_json(r)
}

fn make_content(t: &str, is_error: bool) -> (r: Json)
    ensures
        r@ == content_json(t@, is_error),
{
    let item: Json = Fields::new().with_text("text", t).with_text("type", "text").done();
    assert(item@->Obj_0 =~= seq![("text"@, s(t@)), ("type"@, s("text"@))]);
    let items: Vec<Json> = vec![item];
    assert(item_views(items@) =~= seq![item@]);
    let r: Json = Fields::new().with("content", Json::Arr(items)).with(
        "isError",
        Json::Bool(is_error),
    ).done();
    assert(r@->Obj_0 =~= content_json(t@, is_error)->Obj_0);
    r
}

/// The reply to a call of a tool, from what the store answered: its data as a text, or its
/// error.
pub fn tool_response(id: Json, answer: Result<String, Option<String>>) -> (r: String)
    ensures
        is_line(
            r@,
            result_json(
                id@,
                match answer {
                    Ok(t) => content_json(t@, false),
                    Err(Some(e)) => content_json(e@, true),
                    Err(None) => content_json("knowledge op failed"@, true),
                },
            ),
        ),
{
    match answer {
        Ok(t) => result_response(id, make_content(&t, false)),
        Err(Some(e)) => result_response(id, make_content(&e, true)),
        Err(None) => result_response(id, make_content("knowledge op failed", true)),
    }
}

fn handle_initialize(id: Json, params: Option<&Json>) -> (r: String)
    ensures
        is_line(
            r@,
            result_json(
                id@,
                initialize_json(
                    match params {
                        Some(p) => Some(p@),
                        None => None,
                    },
                ),
            ),
        ),
{
    let version: String = match params {
        Some(p) => match p.get_text("protocolVersion") {
            Some(v) => v,
            None => DEFAULT_PROTOCOL_VERSION.to_owned(),
        },
        None => DEFAULT_PROTOCOL_VERSION.to_owned(),
    };
    let capabilities: Json = Fields::new().with("tools", Fields::new().done()).done();
    assert(capabilities@->Obj_0 =~= seq![("tools"@, JsonView::Obj(Seq::empty()))]);
    let info: Json = Fields::new().with_text("name", SERVER_NAME).with_text(
        "version",
        SERVER_VERSION,
    ).done();
    assert(info@->Obj_0 =~= seq![("name"@, s(SERVER_NAME@)), ("version"@, s(SERVER_VERSION@))]);
    let r: Json = Fields::new().with("capabilities", capabilities).with_text(
        "protocolVersion",
        &version,
    ).with("serverInfo", info).done();
    assert(r@->Obj_0 =~= initialize_json(
        match params {
            Some(p) => Some(p@),
            None => None,
        },
    )->Obj_0);
    result_response(id, r)
}

fn handle_tools_call(id: Json, params: Option<&Json>) -> (r: McpStep)
    ensures
        takes_step(
            r,
            call_step(
                id@,
                match params {
                    Some(p) => Some(p@),
                    None => None,
                },
            ),
        ),
{
    let name: String = match params {
        Some(p) => match p.get_text("name") {
            Some(n) => n,
            None => String::new(),
        },
        None => String::new(),
    };
    let op: &str = if text::same(&name, "query_knowledge") {
        "query"
    } else if text::same(&name, "get_knowledge") {
        "get"
    } else if text::same(&name, "current_knowledge") {
        "current_state"
    } else if text::same(&name, "list_documents") {
        "list_documents"
    } else if text::same(&name, "knowledge_ping") {
        "ping"
    } else {
        let t: String = "unknown tool: ".to_owned().concat(&name);
        return McpStep::Reply(result_response(id, make_content(&t, true)));
    };
    let args: Json = match params {
        Some(p) => match p.get("arguments") {
            Some(a) => a.copy(),
            None => Fields::new().done(),
        },
        None => Fields::new().done(),
    };
    McpStep::Call { id, op: op.to_owned(), args }
}

/// Decides on a message line.
pub fn handle_message(line: &str) -> (r: McpStep)
    ensures
        takes_step(r, message_step(line@)),
{
    let msg: Json = match try_parse_json(line) {
        Ok(m) => m,
        Err(e) => {
            let t: String = "parse error: ".to_owned().concat(&e);
            return McpStep::Reply(error_response(Json::Null, "-32700", &t));
        },
    };
    let id: Json = match msg.get("id") {
        Some(id) => id.copy(),
        None => return McpStep::Silent,
    };
    let method: String = match msg.get_text("method") {
        Some(m) => m,
        None => String::new(),
    };
    let params: Option<&Json> = msg.get("params");
    if text::same(&method, "initialize") {
        McpStep::Reply(handle_initialize(id, params))
    } else if text::same(&method, "ping") {
        McpStep::Reply(result_response(id, Fields::new().done()))
    } else if text::same(&method, "tools/list") {
        let list: Json = Fields::new().with("tools", Json::Arr(all_tools())).done();
        assert(list@->Obj_0 =~= seq![("tools"@, JsonView::Arr(tool_list()))]);
        McpStep::Reply(result_response(id, list))
    } else if text::same(&method, "tools/call") {
        handle_tools_call(id, params)
    } else {
        let t: String = "method not found: ".to_owned().concat(&method);
        McpStep::Reply(error_response(id, "-32601", &t))
    }
}

/// No message can make the server ask the store for anything but reading.
pub proof fn only_reading_is_asked(line: Seq<char>)
    ensures
        message_step(line) matches StepView::Call { op, .. } ==> op == "query"@ || op == "get"@
            || op == "current_state"@ || op == "list_documents"@ || op == "ping"@,
{
}

/// Every tool that is advertised can be called, and every tool that can be called is
/// advertised.
pub proof fn advertised_is_callable(name: Seq<char>)
    ensures
        op_of_tool(name) is Some <==> exists|i: int|
            0 <= i < tool_list().len() && text_field(#[trigger] tool_list()[i], "name"@) == Some(
                name,
            ),
{
    lemma_tool_name("knowledge_ping"@, PING_TEXT@, no_args_schema());
    lemma_tool_name("query_knowledge"@, QUERY_TEXT@, query_schema());
    lemma_tool_name("get_knowledge"@, GET_TEXT@, get_schema());
    lemma_tool_name("current_knowledge"@, CURRENT_TEXT@, no_args_schema());
    lemma_tool_name("list_documents"@, DOCUMENTS_TEXT@, no_args_schema());
    let t = tool_list();
    assert(text_field(t[0], "name"@) == Some("knowledge_ping"@));
    assert(text_field(t[1], "name"@) == Some("query_knowledge"@));
    assert(text_field(t[2], "name"@) == Some("get_knowledge"@));
    assert(text_field(t[3], "name"@) == Some("current_knowledge"@));
    assert(text_field(t[4], "name"@) == Some("list_documents"@));
}

proof fn lemma_tool_name(name: Seq<char>, description: Seq<char>, schema: JsonView)
    ensures
        text_field(tool_json(name, description, schema), "name"@) == Some(name),
{
    reveal_strlit("_meta");
    reveal_strlit("description");
    reveal_strlit("inputSchema");
    reveal_strlit("name");
    reveal_with_fuel(crate::json::lookup, 5);
    let f = tool_json(name, description, schema)->Obj_0;
    assert(f[0].0.len() == 5 && f[1].0.len() == 11 && f[2].0.len() == 11 && "name"@.len() == 4);
    assert(f.skip(1)[0] == f[1]);
    assert(f.skip(1).skip(1)[0] == f[2]);
    assert(f.skip(1).skip(1).skip(1)[0] == f[3]);
}

} // verus!
