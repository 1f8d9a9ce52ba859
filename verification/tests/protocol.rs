//! Messages, replies, and whole calls of tools.

use std::collections::VecDeque;
use std::time::Duration;

use codex_web_search_mcp::auth::load_codex_auth;
use codex_web_search_mcp::auth::CodexAuth;
use codex_web_search_mcp::backend::after_post;
use codex_web_search_mcp::backend::after_refresh;
use codex_web_search_mcp::backend::after_wait;
use codex_web_search_mcp::backend::call_codex;
use codex_web_search_mcp::backend::request_payload;
use codex_web_search_mcp::backend::Action;
use codex_web_search_mcp::backend::Outcome;
use codex_web_search_mcp::html::Fetched;
use codex_web_search_mcp::json::Json;
use codex_web_search_mcp::server::finish_call;
use codex_web_search_mcp::server::finish_fetch;
use codex_web_search_mcp::server::handle;
use codex_web_search_mcp::server::handle_tool_call;
use codex_web_search_mcp::server::make_tool_reply;
use codex_web_search_mcp::server::Step;
use codex_web_search_mcp::server::Work;
use codex_web_search_mcp::session::nanoid;
use codex_web_search_mcp::session::session_id;
use codex_web_search_mcp::session::Session;
use codex_web_search_mcp::tools::tools_list;
use serde_json::Value;

fn string(s: &str) -> Json {
    Json::Str(s.to_string())
}

fn object(members: Vec<(&str, Json)>) -> Json {
    Json::Object(members.into_iter().map(|(k, v)| (k.to_string(), v)).collect())
}

fn to_value(j: &Json) -> Value {
    match j {
        Json::Null => Value::Null,
        Json::Bool(b) => Value::Bool(*b),
        Json::Int(n) => Value::from(*n),
        Json::UInt(n) => Value::from(*n),
        Json::Float(bits) => Value::from(f64::from_bits(*bits)),
        Json::Str(s) => Value::String(s.clone()),
        Json::Array(a) => Value::Array(a.iter().map(to_value).collect()),
        Json::Object(m) => {
            Value::Object(m.iter().map(|(k, v)| (k.clone(), to_value(v))).collect())
        }
    }
}

fn from_value(v: &Value) -> Json {
    match v {
        Value::Null => Json::Null,
        Value::Bool(b) => Json::Bool(*b),
        Value::Number(n) => {
            if let Some(i) = n.as_i64() {
                Json::Int(i)
            } else if let Some(u) = n.as_u64() {
                Json::UInt(u)
            } else {
                Json::Float(n.as_f64().unwrap().to_bits())
            }
        }
        Value::String(s) => Json::Str(s.clone()),
        Value::Array(a) => Json::Array(a.iter().map(from_value).collect()),
        Value::Object(m) => {
            Json::Object(m.iter().map(|(k, v)| (k.clone(), from_value(v))).collect())
        }
    }
}

fn value(text: &str) -> Value {
    serde_json::from_str(text).unwrap()
}

fn parse(text: &str) -> Json {
    from_value(&value(text))
}

/// The reply to a message that is answered at once.
fn reply_to(msg: &Json) -> Value {
    match handle(&mut Session::new(), msg) {
        Step::Reply(v) => to_value(&v),
        _ => panic!("no reply"),
    }
}

fn is_silent(text: &str) -> bool {
    matches!(handle(&mut Session::new(), &parse(text)), Step::Silent)
}

// ---- messages ----

#[test]
fn handle_initialize_returns_server_info() {
    let resp = reply_to(&object(vec![
        ("jsonrpc", string("2.0")),
        ("id", Json::Int(1)),
        ("method", string("initialize")),
        ("params", object(vec![])),
    ]));
    assert_eq!(resp["result"]["serverInfo"]["version"], "2.3.0");
    assert_eq!(resp["result"]["serverInfo"]["name"], "codex-web-search");
}

#[test]
fn handle_tools_list_has_three_tools() {
    let resp = reply_to(&object(vec![
        ("jsonrpc", string("2.0")),
        ("id", Json::Int(1)),
        ("method", string("tools/list")),
    ]));
    let tools = resp["result"]["tools"].as_array().unwrap();
    let names: Vec<&str> = tools.iter().map(|t| t["name"].as_str().unwrap()).collect();
    assert_eq!(names.len(), 3);
    assert!(names.contains(&"codex_web_search"));
    assert!(names.contains(&"codex_web_research"));
    assert!(names.contains(&"web_fetch"));
}

#[test]
fn handle_unknown_tool_errors() {
    let resp = reply_to(&object(vec![
        ("jsonrpc", string("2.0")),
        ("id", Json::Int(1)),
        ("method", string("tools/call")),
        (
            "params",
            object(vec![("name", string("nope")), ("arguments", object(vec![]))]),
        ),
    ]));
    assert!(resp["result"]["isError"].as_bool().unwrap());
}

#[test]
fn replies_are_exact() {
    assert_eq!(
        reply_to(&parse(r#"{"id": "a", "method": "initialize"}"#)),
        value(
            r#"{"jsonrpc": "2.0", "id": "a", "result": {
                "protocolVersion": "2024-11-05",
                "capabilities": {"tools": {}},
                "serverInfo": {"name": "codex-web-search", "version": "2.3.0"}
            }}"#
        )
    );
    assert_eq!(
        reply_to(&parse(r#"{"id": 2.5, "method": "initialize", "params": {"protocolVersion": "x"}}"#))
            ["result"]["protocolVersion"],
        "x"
    );
    assert_eq!(
        reply_to(&parse(r#"{"id": 18446744073709551615, "method": "ping"}"#)),
        value(r#"{"jsonrpc": "2.0", "id": 18446744073709551615, "result": {}}"#)
    );
    assert_eq!(
        reply_to(&parse(r#"{"method": "ping"}"#)),
        value(r#"{"jsonrpc": "2.0", "id": null, "result": {}}"#)
    );
    assert_eq!(
        reply_to(&parse(r#"{"id": 1, "method": "tools/call", "params": {"name": "nope"}}"#)),
        value(
            r#"{"jsonrpc": "2.0", "id": 1, "result": {
                "content": [{"type": "text", "text": "未知工具: nope"}], "isError": true
            }}"#
        )
    );
    assert_eq!(
        reply_to(&parse(r#"{"id": 1, "method": "tools/call"}"#))["result"]["content"][0]["text"],
        "未知工具: "
    );
}

#[test]
fn unknown_methods_are_refused_where_an_answer_is_due() {
    assert_eq!(
        reply_to(&parse(r#"{"id": 7, "method": "resources/list"}"#)),
        value(
            r#"{"jsonrpc": "2.0", "id": 7,
                "error": {"code": -32601, "message": "Method not found: resources/list"}}"#
        )
    );
    assert_eq!(reply_to(&parse(r#"{"id": null, "method": "x"}"#))["error"]["code"], -32601);
    assert!(is_silent(r#"{"method": "x"}"#));
}

#[test]
fn nothing_is_said_to_a_notification() {
    assert!(is_silent(r#"{"method": "notifications/initialized"}"#));
    assert!(is_silent(r#"{"id": 1, "method": "initialized"}"#));
    assert!(is_silent(r#"{"id": 1}"#));
    assert!(is_silent(r#"{"id": 1, "method": 2}"#));
    assert!(is_silent("[]"));
    assert!(is_silent("\"ping\""));
}

#[test]
fn tools_are_exact() {
    let expected = value(
        r#"[
        {
            "name": "codex_web_search",
            "description": "通过 OpenAI Codex 独立搜索端点执行实时联网搜索（需要 Codex 凭证）。返回答案文本与带标题/URL/摘要的来源列表。与底层模型无关，适合非 Anthropic 模型下的联网搜索。",
            "inputSchema": {
                "type": "object",
                "properties": {
                    "query": { "type": "string", "description": "搜索关键词或问题" },
                    "recency": { "type": "number", "description": "仅返回最近 N 天内的结果（可选）" },
                    "domains": { "type": "array", "items": { "type": "string" }, "description": "限定搜索域名列表（可选）" },
                    "response_length": { "type": "string", "enum": ["short","medium","long"], "description": "返回详略（可选，默认 medium）" }
                },
                "required": ["query"]
            }
        },
        {
            "name": "codex_web_research",
            "description": "多步深度研究：在 Codex 联网检索+文档浏览引擎上执行「搜索→打开→页内查找→点击」迭代研究。search_query/open/find/click 可组合，也可多轮用 ref_id 串联。返回内容含 [cN: ...] 可点击标记。需要 Codex 凭证。",
            "inputSchema": {
                "type": "object",
                "properties": {
                    "search_query": { "type": "array", "items": {
                        "type": "object",
                        "properties": {
                            "q": { "type": "string" },
                            "recency": { "type": "number" },
                            "domains": { "type": "array", "items": { "type": "string" } }
                        }
                    }, "description": "搜索查询列表（可选，至少一项操作）" },
                    "open": { "type": "array", "items": {
                        "type": "object",
                        "properties": {
                            "ref_id": { "type": "string", "description": "要打开的 ref_id，如 turn0search0" },
                            "lineno": { "type": "number" }
                        }
                    } },
                    "find": { "type": "array", "items": {
                        "type": "object",
                        "properties": {
                            "ref_id": { "type": "string" },
                            "pattern": { "type": "string" }
                        }
                    } },
                    "click": { "type": "array", "items": {
                        "type": "object",
                        "properties": {
                            "ref_id": { "type": "string" },
                            "id": { "type": "number" }
                        }
                    } },
                    "response_length": { "type": "string", "enum": ["short","medium","long"] },
                    "session_id": { "type": "string", "description": "覆盖会话 id 以接续之前上下文（可选）" }
                }
            }
        },
        {
            "name": "web_fetch",
            "description": "抓取任意 URL 并返回干净的纯文本（剥离脚本/样式/标签，自动探测 charset 解码 GBK/GB2312 等中文编码，跟随 301/302 重定向）。补齐「搜到链接却读不到正文、JS 渲染页读不到」的短板。",
            "inputSchema": {
                "type": "object",
                "properties": {
                    "url": { "type": "string", "description": "要抓取的网址" }
                },
                "required": ["url"]
            }
        }
    ]"#,
    );
    assert_eq!(to_value(&tools_list()), expected);
}

// ---- calls of tools ----

fn work(name: &str, args: &str) -> Work {
    handle_tool_call(&mut Session::new(), name, &parse(args))
}

fn refusal(name: &str, args: &str) -> String {
    match work(name, args) {
        Work::Refuse(text) => text,
        _ => panic!("not refused"),
    }
}

#[test]
fn calls_without_what_they_need_are_refused() {
    assert_eq!(refusal("codex_web_search", "{}"), "参数 query 不能为空。");
    assert_eq!(refusal("codex_web_search", r#"{"query": " \n"}"#), "参数 query 不能为空。");
    assert_eq!(refusal("codex_web_search", "null"), "参数 query 不能为空。");
    assert_eq!(refusal("web_fetch", r#"{"url": 3}"#), "参数 url 不能为空。");
    assert_eq!(
        refusal("codex_web_research", r#"{"response_length": "long"}"#),
        "至少需要提供一项操作：search_query / open / find / click。"
    );
    assert_eq!(
        refusal("codex_web_research", r#"{"search_query": [{"q": " "}], "click": [{"ref_id": "a"}]}"#),
        "至少需要提供一项操作：search_query / open / find / click。"
    );
    assert_eq!(refusal("Web_fetch", r#"{"url": "u"}"#), "未知工具: Web_fetch");
}

#[test]
fn every_listed_tool_is_known() {
    for tool in to_value(&tools_list()).as_array().unwrap() {
        let name = tool["name"].as_str().unwrap();
        assert_ne!(refusal(name, "{}"), format!("未知工具: {}", name));
    }
}

#[test]
fn fetch_goes_to_the_given_address() {
    match handle(
        &mut Session::new(),
        &parse(
            r#"{"id": 4, "method": "tools/call",
                "params": {"name": "web_fetch", "arguments": {"url": " https://a.com "}}}"#,
        ),
    ) {
        Step::Fetch { id, url } => {
            assert_eq!(to_value(&id), Value::from(4));
            assert_eq!(url, "https://a.com");
        }
        _ => panic!("not a fetch"),
    }
}

#[test]
fn fetched_pages_are_replied() {
    let page = Fetched::Page { content_type: None, body: b"<p>x</p>".to_vec() };
    assert_eq!(
        to_value(&finish_fetch(Json::Int(4), &page)),
        value(
            r#"{"jsonrpc": "2.0", "id": 4,
                "result": {"content": [{"type": "text", "text": "x"}], "isError": false}}"#
        )
    );
    let failed = to_value(&finish_fetch(Json::Int(4), &Fetched::Failed("why".to_string())));
    assert_eq!(failed["result"]["content"][0]["text"], "抓取失败: why");
    assert_eq!(failed["result"]["isError"], true);
    let cut = to_value(&finish_fetch(Json::Int(4), &Fetched::Unreadable("why".to_string())));
    assert_eq!(cut["result"]["content"][0]["text"], "读取正文失败: why");
    assert_eq!(cut["result"]["isError"], true);
}

#[test]
fn answers_are_replied() {
    let good = parse(r#"{"output": "fine", "results": []}"#);
    assert_eq!(
        to_value(&finish_call(string("i"), Ok(good))),
        to_value(&make_tool_reply(string("i"), "fine".to_string(), false))
    );
    let bad = to_value(&finish_call(Json::Null, Ok(parse(r#"{"output": "Internal Error"}"#))));
    assert_eq!(bad["result"]["content"][0]["text"], "Internal Error");
    assert_eq!(bad["result"]["isError"], true);
    let failed = to_value(&finish_call(Json::Null, Err("no".to_string())));
    assert_eq!(failed["result"]["content"][0]["text"], "no");
    assert_eq!(failed["result"]["isError"], true);
}

// ---- sessions ----

#[test]
fn identifiers_are_the_time_in_hexadecimal() {
    assert_eq!(nanoid(0), "0");
    assert_eq!(nanoid(255), "ff");
    assert_eq!(nanoid(1_700_000_000_000_000_000), "17979cfe362a0000");
    assert_eq!(nanoid(u128::MAX), "f".repeat(32));
    assert_ne!(nanoid(16), nanoid(1));
}

#[test]
fn session_keeps_its_identifier() {
    let mut session = Session::new();
    assert!(session.id.is_none());
    assert_eq!(session_id(&mut session, 4096), "ccs_1000");
    assert_eq!(session_id(&mut session, 9), "ccs_1000");
    assert_eq!(session.id, Some("ccs_1000".to_string()));
}

#[test]
fn research_can_name_the_session() {
    let mut session = Session::new();
    session_id(&mut session, 1);
    let args = parse(r#"{"session_id": " mine ", "open": [{"ref_id": "r"}]}"#);
    handle_tool_call(&mut session, "codex_web_search", &args);
    assert_eq!(session.id, Some("ccs_1".to_string()));
    handle_tool_call(&mut session, "codex_web_research", &args);
    assert_eq!(session_id(&mut session, 2), "mine");
    let blank = parse(r#"{"session_id": " ", "open": [{"ref_id": "r"}]}"#);
    handle_tool_call(&mut session, "codex_web_research", &blank);
    assert_eq!(session_id(&mut session, 3), "mine");
    let refused = parse(r#"{"session_id": "other"}"#);
    assert!(matches!(
        handle_tool_call(&mut session, "codex_web_research", &refused),
        Work::Refuse(_)
    ));
    assert_eq!(session_id(&mut session, 4), "other");
}

// ---- whole calls ----

/// What a call came to: the reply, the milliseconds waited, the payload, and the token of each
/// request.
struct Run {
    reply: Value,
    waited: u64,
    payload: Value,
    tokens: Vec<String>,
}

fn outcome_of(status: u16, body: &str) -> Outcome {
    let parsed = serde_json::from_str::<Value>(body);
    if status == 200 {
        match parsed {
            Ok(v) => Outcome::Body(from_value(&v)),
            Err(e) => Outcome::BadBody(e.to_string()),
        }
    } else {
        Outcome::Status(status, parsed.ok().map(|v| from_value(&v)))
    }
}

/// Runs a call of a tool against answers that are given in turn.
fn run(
    auth: Option<CodexAuth>,
    name: &str,
    args: Json,
    responses: Vec<(u16, String)>,
    renewed: Option<&str>,
) -> Run {
    let mut queue: VecDeque<(u16, String)> = responses.into_iter().collect();
    let mut session = Session::new();
    let msg = object(vec![
        ("jsonrpc", string("2.0")),
        ("id", Json::Int(1)),
        ("method", string("tools/call")),
        ("params", object(vec![("name", string(name)), ("arguments", args)])),
    ]);
    let (id, commands) = match handle(&mut session, &msg) {
        Step::Call { id, commands } => (id, commands),
        _ => panic!("not a call"),
    };
    let payload = to_value(&request_payload(&session_id(&mut session, 10), commands));
    let mut waited = 0;
    let mut tokens = Vec::new();
    let mut action = call_codex(&auth);
    loop {
        action = match action {
            Action::Post { access, stage } => {
                tokens.push(access);
                let (status, body) = queue.pop_front().unwrap_or((200, "{}".to_string()));
                after_post(auth.as_ref().unwrap(), stage, outcome_of(status, &body))
            }
            Action::Refresh { refresh, message } => {
                assert_eq!(refresh, "again");
                after_refresh(message, renewed.map(|s| s.to_string()))
            }
            Action::Wait { millis, attempt } => {
                waited += millis;
                after_wait(auth.as_ref().unwrap(), attempt)
            }
            Action::Done(result) => {
                let reply = to_value(&finish_call(id, result));
                return Run { reply, waited, payload, tokens };
            }
        };
    }
}

fn search(responses: Vec<(u16, String)>, token: &str, query: &str) -> Run {
    let auth = load_codex_auth(Some(token.to_string()), None, None);
    run(
        auth,
        "codex_web_search",
        object(vec![("query", string(query))]),
        responses,
        None,
    )
}

#[test]
fn search_via_mock_endpoint() {
    let body = to_value(&object(vec![
        ("output", string("答案 \u{e200}cite\u{e202}turn0search0\u{e201} 完毕")),
        (
            "results",
            Json::Array(vec![object(vec![
                ("url", string("https://example.com")),
                ("ref_id", string("turn0search0")),
                ("title", string("示例页")),
                ("snippet", string("摘要")),
                ("domain", string("example.com")),
            ])]),
        ),
    ]))
    .to_string();
    let resp = search(vec![(200, body)], "tok", "test").reply;
    let text = resp["result"]["content"][0]["text"].as_str().unwrap();
    assert!(!resp["result"]["isError"].as_bool().unwrap(), "got: {}", text);
    assert!(text.contains("示例页"), "got: {}", text);
    assert!(
        text.contains("[turn0search0: 示例页 → example.com]"),
        "got: {}",
        text
    );
}

#[test]
fn search_retries_on_429_then_succeeds() {
    let ok = to_value(&object(vec![
        ("output", string("ok")),
        ("results", Json::Array(vec![])),
    ]))
    .to_string();
    let run = search(
        vec![
            (429, "{}".to_string()),
            (429, "{}".to_string()),
            (429, "{}".to_string()),
            (200, ok),
        ],
        "tok",
        "retry",
    );
    let elapsed = Duration::from_millis(run.waited);
    assert!(!run.reply["result"]["isError"].as_bool().unwrap());
    // Two backoffs (500ms + 1000ms) must have elapsed.
    assert!(elapsed >= Duration::from_millis(1400), "elapsed {:?}", elapsed);
}

#[test]
fn search_429_gives_up_with_error() {
    // One request goes up front, then up to three more: four refusals end the call.
    let resp = search(
        vec![
            (429, "{}".to_string()),
            (429, "{}".to_string()),
            (429, "{}".to_string()),
            (429, "{}".to_string()),
        ],
        "tok",
        "never",
    )
    .reply;
    assert!(resp["result"]["isError"].as_bool().unwrap());
    let text = resp["result"]["content"][0]["text"].as_str().unwrap();
    assert!(text.contains("429"), "got: {}", text);
}

#[test]
fn search_400_passthroughs_error_detail() {
    let body = r#"{"error": {"message": "commands.search_query 不能为空", "type": "invalid_request_error",
        "param": "commands.search_query", "code": "empty_array"}}"#;
    let run = search(vec![(400, body.to_string())], "tok", "q");
    assert_eq!(run.reply["result"]["isError"], true);
    assert_eq!(
        run.reply["result"]["content"][0]["text"],
        "Codex 请求失败（HTTP 400） 详情: empty_array: commands.search_query 不能为空 (param: commands.search_query)"
    );
    assert_eq!(run.tokens.len(), 1);
}

#[test]
fn payload_is_exact() {
    let run = search(vec![(200, "{}".to_string())], "tok", " rust ");
    assert_eq!(
        run.payload,
        value(
            r#"{"id": "ccs_a", "model": "gpt-4o", "commands": {"search_query": [{"q": "rust"}]}}"#
        )
    );
    assert_eq!(run.reply["result"]["content"][0]["text"], "No results returned.");
    assert_eq!(run.tokens, vec!["tok".to_string()]);
}

#[test]
fn waits_grow_with_the_failures() {
    let busy = || (503, String::new());
    let fine = || (200, r#"{"output": "ok"}"#.to_string());
    let cases = vec![
        (vec![fine()], 0, 1),
        (vec![busy(), fine()], 0, 2),
        (vec![busy(), busy(), fine()], 500, 3),
        (vec![busy(), busy(), busy(), fine()], 1500, 4),
    ];
    for (responses, waited, posts) in cases {
        let run = search(responses, "tok", "q");
        assert_eq!(run.waited, waited);
        assert_eq!(run.tokens.len(), posts);
        assert_eq!(run.reply["result"]["content"][0]["text"], "ok");
    }
    let run = search(vec![busy(), busy(), busy(), (502, String::new()), fine()], "tok", "q");
    assert_eq!((run.waited, run.tokens.len()), (1500, 4));
    assert_eq!(
        run.reply["result"]["content"][0]["text"],
        "Codex 服务端错误（HTTP 502），将自动重试。"
    );
}

#[test]
fn fatal_failures_are_not_tried_again() {
    let run = search(vec![(404, "{}".to_string())], "tok", "q");
    assert_eq!((run.waited, run.tokens.len()), (0, 1));
    assert_eq!(run.reply["result"]["content"][0]["text"], "Codex 请求失败（HTTP 404）");
    let run = search(vec![(200, "no json".to_string())], "tok", "q");
    assert_eq!(run.tokens.len(), 1);
    let text = run.reply["result"]["content"][0]["text"].as_str().unwrap();
    assert!(text.starts_with("解析响应失败: "), "got: {}", text);
    let run = search(vec![(429, String::new()), (400, String::new())], "tok", "q");
    assert_eq!((run.waited, run.tokens.len()), (0, 2));
    assert_eq!(run.reply["result"]["content"][0]["text"], "Codex 请求失败（HTTP 400）");
}

#[test]
fn call_without_credentials_sends_nothing() {
    let run = run(
        load_codex_auth(Some(String::new()), None, None),
        "codex_web_search",
        object(vec![("query", string("q"))]),
        vec![],
        None,
    );
    assert!(run.tokens.is_empty());
    assert_eq!(
        run.reply["result"]["content"][0]["text"],
        "未找到 Codex 登录凭证。请先运行 `codex login`，或设置环境变量 CODEX_ACCESS_TOKEN。"
    );
    assert_eq!(run.reply["result"]["isError"], true);
}

const EXPIRED: &str = "Codex 凭证已过期（HTTP 401/403）。请重新运行 `codex login`。";

fn with_file(file: &str, responses: Vec<(u16, String)>, renewed: Option<&str>) -> Run {
    run(
        load_codex_auth(None, None, Some(&parse(file))),
        "codex_web_search",
        object(vec![("query", string("q"))]),
        responses,
        renewed,
    )
}

const FILE: &str = r#"{"tokens": {"access_token": "old", "refresh_token": "again"}}"#;

#[test]
fn expired_token_is_renewed_once() {
    let expired = || (401, String::new());
    let fine = || (200, r#"{"output": "ok"}"#.to_string());
    let run = with_file(FILE, vec![expired(), fine()], Some("new"));
    assert_eq!(run.tokens, vec!["old".to_string(), "new".to_string()]);
    assert_eq!(run.reply["result"]["content"][0]["text"], "ok");
    let run = with_file(FILE, vec![expired(), expired(), fine()], Some("new"));
    assert_eq!(run.tokens.len(), 2);
    assert_eq!(run.reply["result"]["content"][0]["text"], EXPIRED);
    let run = with_file(FILE, vec![expired(), (429, String::new()), fine()], Some("new"));
    assert_eq!((run.tokens.len(), run.waited), (2, 0));
    assert_eq!(run.reply["result"]["isError"], true);
}

#[test]
fn failed_renewal_asks_for_a_new_login() {
    let run = with_file(FILE, vec![(401, String::new())], None);
    assert_eq!(run.tokens, vec!["old".to_string()]);
    assert_eq!(run.reply["result"]["content"][0]["text"], EXPIRED);
}

#[test]
fn only_an_expired_token_of_the_file_is_renewed() {
    let run = with_file(FILE, vec![(403, String::new())], Some("new"));
    assert_eq!(run.tokens.len(), 1);
    assert_eq!(run.reply["result"]["content"][0]["text"], EXPIRED);
    let bare = r#"{"tokens": {"access_token": "old"}}"#;
    let run = with_file(bare, vec![(401, String::new())], Some("new"));
    assert_eq!(run.tokens.len(), 1);
    let run = search(vec![(401, String::new())], "tok", "q");
    assert_eq!(run.tokens.len(), 1);
    assert_eq!(run.reply["result"]["content"][0]["text"], EXPIRED);
    let run = with_file(FILE, vec![(429, String::new()), (401, String::new())], Some("new"));
    assert_eq!(run.tokens, vec!["old".to_string(), "old".to_string()]);
}
