//! What is asked of the search service, with what credentials, and what its answers mean.

use codex_web_search_mcp::auth::backup_extension;
use codex_web_search_mcp::auth::codex_endpoint;
use codex_web_search_mcp::auth::codex_refresh_endpoint;
use codex_web_search_mcp::auth::load_codex_auth;
use codex_web_search_mcp::auth::refresh_request;
use codex_web_search_mcp::auth::refreshed_tokens;
use codex_web_search_mcp::auth::store_tokens;
use codex_web_search_mcp::auth::Tokens;
use codex_web_search_mcp::backend::extract_err_detail;
use codex_web_search_mcp::backend::post_codex;
use codex_web_search_mcp::backend::request_headers;
use codex_web_search_mcp::backend::Outcome;
use codex_web_search_mcp::backend::USER_AGENT;
use codex_web_search_mcp::commands::asks_for_something;
use codex_web_search_mcp::commands::build_research_commands;
use codex_web_search_mcp::commands::build_search_commands;
use codex_web_search_mcp::json::Json;
use codex_web_search_mcp::logging::verbose;
use codex_web_search_mcp::logging::Log;
use codex_web_search_mcp::text::contains;
use codex_web_search_mcp::text::join;
use codex_web_search_mcp::text::replace;
use codex_web_search_mcp::text::same;
use codex_web_search_mcp::text::trim;
use codex_web_search_mcp::text::white_space;
use codex_web_search_mcp::text::write_number;
use serde_json::Value;

fn to_value(j: &Json) -> Value {
    match j {
        Json::Null => Value::Null,
        Json::Bool(b) => Value::Bool(*b),
        Json::Int(n) => Value::from(*n),
        Json::UInt(n) => Value::from(*n),
        Json::Float(bits) => Value::from(f64::from_bits(*bits)),
        Json::Str(s) => Value::String(s.clone()),
        Json::Array(a) => Value::Array(a.iter().map(to_value).collect()),
        Json::Object(m) => {
            Value::Object(m.iter().map(|(k, v)| (k.clone(), to_value(v))).collect())
        }
    }
}

fn from_value(v: &Value) -> Json {
    match v {
        Value::Null => Json::Null,
        Value::Bool(b) => Json::Bool(*b),
        Value::Number(n) => {
            if let Some(i) = n.as_i64() {
                Json::Int(i)
            } else if let Some(u) = n.as_u64() {
                Json::UInt(u)
            } else {
                Json::Float(n.as_f64().unwrap().to_bits())
            }
        }
        Value::String(s) => Json::Str(s.clone()),
        Value::Array(a) => Json::Array(a.iter().map(from_value).collect()),
        Value::Object(m) => {
            Json::Object(m.iter().map(|(k, v)| (k.clone(), from_value(v))).collect())
        }
    }
}

fn value(text: &str) -> Value {
    serde_json::from_str(text).unwrap()
}

fn parse(text: &str) -> Json {
    from_value(&value(text))
}

fn some(s: &str) -> Option<String> {
    Some(s.to_string())
}

// ---- values ----

#[test]
fn last_member_of_a_key_counts() {
    let twice = Json::Object(vec![
        ("a".to_string(), Json::Int(1)),
        ("b".to_string(), Json::Int(2)),
        ("a".to_string(), Json::Int(3)),
    ]);
    assert_eq!(twice.i64_at("a"), Some(3));
    assert_eq!(twice.i64_at("b"), Some(2));
    assert!(twice.get("c").is_none());
    assert_eq!(to_value(&twice.copy()), value(r#"{"a": 3, "b": 2}"#));
    assert_eq!(to_value(&twice.with("b", Json::Null)), value(r#"{"a": 3, "b": null}"#));
}

#[test]
fn members_are_read_by_their_kind() {
    let j = parse(r#"{"s": " x ", "i": -4, "f": 4.0, "u": 9223372036854775808, "a": [1], "n": null}"#);
    assert_eq!(j.str_at("s"), Some(" x "));
    assert_eq!(j.trimmed_at("s"), "x");
    assert_eq!(j.trimmed_at("i"), "");
    assert_eq!(j.i64_at("i"), Some(-4));
    assert_eq!(j.i64_at("f"), None);
    assert_eq!(j.i64_at("u"), None);
    assert_eq!(j.array_at("a").unwrap().len(), 1);
    assert!(j.array_at("s").is_none());
    assert!(j.get("n").is_some());
    assert_eq!(j.string_at("n"), None);
    assert!(parse("[1]").get("s").is_none());
}

// ---- commands ----

fn searched(args: &str) -> Value {
    to_value(&build_search_commands(&parse(args)))
}

fn researched(args: &str) -> Value {
    to_value(&build_research_commands(&parse(args)))
}

#[test]
fn search_commands_are_exact() {
    assert_eq!(
        searched(
            r#"{"query": "  rust  ", "recency": 7, "domains": [" a.com ", "", 1, "b.com"],
                "response_length": "short", "other": 1}"#
        ),
        value(
            r#"{"search_query": [{"q": "rust", "recency": 7, "domains": ["a.com", "b.com"]}],
                "response_length": "short"}"#
        )
    );
    assert_eq!(searched("{}"), value(r#"{"search_query": [{"q": ""}]}"#));
}

#[test]
fn unusable_arguments_are_left_out() {
    let plain = value(r#"{"search_query": [{"q": "x"}]}"#);
    assert_eq!(searched(r#"{"query": "x", "recency": 0}"#), plain);
    assert_eq!(searched(r#"{"query": "x", "recency": -1}"#), plain);
    assert_eq!(searched(r#"{"query": "x", "recency": 7.0}"#), plain);
    assert_eq!(searched(r#"{"query": "x", "recency": "week"}"#), plain);
    assert_eq!(searched(r#"{"query": "x", "domains": []}"#), plain);
    assert_eq!(searched(r#"{"query": "x", "domains": [" "]}"#), plain);
    assert_eq!(searched(r#"{"query": "x", "domains": "a.com"}"#), plain);
    assert_eq!(searched(r#"{"query": "x", "response_length": 1}"#), plain);
}

#[test]
fn research_commands_are_exact() {
    assert_eq!(
        researched(
            r#"{
                "search_query": [
                    {"q": " a ", "recency": 3, "domains": ["d"], "response_length": "long"},
                    {"q": ""}, {"recency": 1}, {"q": "b", "recency": 0}, "c"
                ],
                "open": [{"ref_id": " r ", "lineno": -2}, {"ref_id": "s"}, {"lineno": 1}],
                "find": [{"ref_id": "r", "pattern": " p "}, {"ref_id": "r"}, {"pattern": "p"}],
                "click": [{"ref_id": "r", "id": 0}, {"ref_id": "r"}, {"id": 1}, {"ref_id": "r", "id": "1"}],
                "response_length": "medium",
                "session_id": "x"
            }"#
        ),
        value(
            r#"{
                "search_query": [{"q": "a", "recency": 3, "domains": ["d"]}, {"q": "b"}],
                "open": [{"ref_id": "r", "lineno": -2}, {"ref_id": "s"}],
                "find": [{"ref_id": "r", "pattern": "p"}],
                "click": [{"ref_id": "r", "id": 0}],
                "response_length": "medium"
            }"#
        )
    );
}

#[test]
fn research_is_long_unless_told_otherwise() {
    assert_eq!(
        researched(r#"{"search_query": [{"q": "a"}]}"#),
        value(r#"{"search_query": [{"q": "a"}], "response_length": "long"}"#)
    );
    assert_eq!(
        researched(r#"{"open": [{"ref_id": "r"}], "response_length": 3}"#),
        value(r#"{"open": [{"ref_id": "r"}], "response_length": "long"}"#)
    );
    assert_eq!(
        researched(r#"{"click": [{"ref_id": "r", "id": 1}], "response_length": "short"}"#),
        value(r#"{"click": [{"ref_id": "r", "id": 1}], "response_length": "short"}"#)
    );
    assert_eq!(
        researched(r#"{"find": [], "response_length": "short"}"#),
        value(r#"{"response_length": "short"}"#)
    );
}

#[test]
fn built_commands_ask_for_themselves() {
    let built = build_research_commands(&parse(
        r#"{"search_query": [{"q": " a ", "recency": 3, "domains": [" d ", ""]}, {"q": ""}],
            "open": [{"ref_id": " r ", "lineno": 2}], "find": [{"ref_id": "r", "pattern": " p "}],
            "click": [{"ref_id": "r", "id": 1}, {}]}"#,
    ));
    assert_eq!(to_value(&build_research_commands(&built)), to_value(&built));
}

#[test]
fn search_is_a_research_with_one_query() {
    let short = build_search_commands(&parse(
        r#"{"query": " a ", "recency": 3, "domains": ["d"], "response_length": "short"}"#,
    ));
    assert_eq!(to_value(&build_research_commands(&short)), to_value(&short));
    let plain = build_search_commands(&parse(r#"{"query": "a"}"#));
    assert_eq!(
        to_value(&build_research_commands(&plain)),
        value(r#"{"search_query": [{"q": "a"}], "response_length": "long"}"#)
    );
}

#[test]
fn empty_operations_are_left_out() {
    assert_eq!(
        researched(r#"{"search_query": [], "open": [{}], "find": {}, "click": [1]}"#),
        value("{}")
    );
    assert_eq!(researched("null"), value("{}"));
    assert!(!asks_for_something(&parse(r#"{"response_length": "long"}"#)));
    assert!(asks_for_something(&parse(r#"{"search_query": []}"#)));
    assert!(asks_for_something(&parse(r#"{"open": []}"#)));
    assert!(asks_for_something(&parse(r#"{"find": []}"#)));
    assert!(asks_for_something(&parse(r#"{"click": []}"#)));
}

// ---- credentials ----

const FILE: &str = r#"{"kept": [1], "tokens": {"access_token": "file", "account_id": "acc",
    "refresh_token": "again", "id_token": "i"}}"#;

#[test]
fn environment_goes_before_the_file() {
    let file = parse(FILE);
    let auth = load_codex_auth(some("env"), some("me"), Some(&file)).unwrap();
    assert_eq!(auth.access, "env");
    assert_eq!(auth.account_id, some("me"));
    assert!(!auth.file_backed);
    assert_eq!(auth.refresh, None);
    let auth = load_codex_auth(some("env"), some(""), None).unwrap();
    assert_eq!(auth.account_id, None);
}

#[test]
fn credentials_of_the_file() {
    let file = parse(FILE);
    let auth = load_codex_auth(some(""), some("me"), Some(&file)).unwrap();
    assert_eq!(auth.access, "file");
    assert_eq!(auth.account_id, some("acc"));
    assert!(auth.file_backed);
    assert_eq!(auth.refresh, some("again"));
    let bare = parse(r#"{"tokens": {"access_token": "", "account_id": 1}}"#);
    let auth = load_codex_auth(None, None, Some(&bare)).unwrap();
    assert_eq!((auth.access.as_str(), auth.account_id, auth.refresh), ("", None, None));
}

#[test]
fn missing_credentials() {
    assert!(load_codex_auth(None, some("me"), None).is_none());
    assert!(load_codex_auth(None, None, Some(&parse("{}"))).is_none());
    assert!(load_codex_auth(None, None, Some(&parse(r#"{"tokens": {"access_token": 1}}"#))).is_none());
    assert!(load_codex_auth(None, None, Some(&parse(r#"{"access_token": "x"}"#))).is_none());
}

#[test]
fn addresses_can_be_set() {
    let search = "https://chatgpt.com/backend-api/codex/alpha/search";
    let renew = "https://chatgpt.com/backend-api/auth/refresh";
    assert_eq!(codex_endpoint(None), search);
    assert_eq!(codex_endpoint(some(" \t")), search);
    assert_eq!(codex_endpoint(some(" http://x ")), " http://x ");
    assert_eq!(codex_refresh_endpoint(None), renew);
    assert_eq!(codex_refresh_endpoint(some("")), renew);
    assert_eq!(codex_refresh_endpoint(some("http://y")), "http://y");
}

#[test]
fn copies_of_the_file_are_dated() {
    assert_eq!(backup_extension(0), "json.bak.0");
    assert_eq!(backup_extension(1_700_000_000), "json.bak.1700000000");
    assert_eq!(backup_extension(u64::MAX), "json.bak.18446744073709551615");
}

#[test]
fn renewal_is_asked_for_and_read() {
    assert_eq!(to_value(&refresh_request("again")), value(r#"{"refresh_token": "again"}"#));
    let both = refreshed_tokens(&parse(r#"{"access_token": "a", "refresh_token": "b"}"#)).unwrap();
    assert_eq!((both.access.as_str(), both.refresh), ("a", some("b")));
    let one = refreshed_tokens(&parse(r#"{"access_token": "a", "refresh_token": null}"#)).unwrap();
    assert_eq!((one.access.as_str(), one.refresh), ("a", None));
    assert!(refreshed_tokens(&parse(r#"{"refresh_token": "b"}"#)).is_none());
}

#[test]
fn stored_tokens_are_read_back() {
    let tokens = Tokens { access: "new".to_string(), refresh: some("next") };
    let stored = store_tokens(parse(FILE), &tokens).unwrap();
    assert_eq!(
        to_value(&stored),
        value(
            r#"{"kept": [1], "tokens": {"access_token": "new", "account_id": "acc",
                "refresh_token": "next", "id_token": "i"}}"#
        )
    );
    let auth = load_codex_auth(None, None, Some(&stored)).unwrap();
    assert_eq!((auth.access.as_str(), auth.account_id), ("new", some("acc")));
    assert_eq!(auth.refresh, some("next"));
    let kept = Tokens { access: "new".to_string(), refresh: None };
    let stored = store_tokens(parse(FILE), &kept).unwrap();
    let auth = load_codex_auth(None, None, Some(&stored)).unwrap();
    assert_eq!(auth.refresh, some("again"));
}

#[test]
fn tokens_need_a_place_in_the_file() {
    let tokens = Tokens { access: "new".to_string(), refresh: None };
    assert!(store_tokens(parse("{}"), &tokens).is_none());
    assert!(store_tokens(parse(r#"{"tokens": "x"}"#), &tokens).is_none());
    let empty = store_tokens(parse(r#"{"tokens": {}}"#), &tokens).unwrap();
    assert_eq!(to_value(&empty), value(r#"{"tokens": {"access_token": "new"}}"#));
}

#[test]
fn headers_are_exact() {
    let pair = |a: &str, b: &str| (a.to_string(), b.to_string());
    assert_eq!(
        request_headers("tok", &some("acc")),
        vec![
            pair("Authorization", "Bearer tok"),
            pair("ChatGPT-Account-ID", "acc"),
            pair("Content-Type", "application/json"),
            pair("User-Agent", "codex-cli/0.147.0-alpha.6.5"),
        ]
    );
    assert_eq!(request_headers("t", &None)[1], pair("ChatGPT-Account-ID", ""));
    assert_eq!(USER_AGENT, "codex-cli/0.147.0-alpha.6.5");
}

// ---- answers ----

fn failure(outcome: Outcome) -> (bool, Option<u16>, String) {
    match post_codex(outcome) {
        Ok(_) => panic!("no failure"),
        Err(f) => (f.retryable, f.status, f.message),
    }
}

#[test]
fn failures_are_exact() {
    let expired = "Codex 凭证已过期（HTTP 401/403）。请重新运行 `codex login`。";
    let cases: Vec<(u16, bool, &str)> = vec![
        (401, false, expired),
        (403, false, expired),
        (429, true, "触发 Codex 速率限制（HTTP 429）。请稍后重试。"),
        (500, true, "Codex 服务端错误（HTTP 500），将自动重试。"),
        (599, true, "Codex 服务端错误（HTTP 599），将自动重试。"),
        (600, false, "Codex 请求失败（HTTP 600）"),
        (400, false, "Codex 请求失败（HTTP 400）"),
        (304, false, "Codex 请求失败（HTTP 304）"),
    ];
    for (code, retryable, text) in cases {
        assert_eq!(
            failure(Outcome::Status(code, None)),
            (retryable, Some(code), text.to_string())
        );
    }
    assert_eq!(
        failure(Outcome::BadBody("eof".to_string())),
        (false, None, "解析响应失败: eof".to_string())
    );
    assert_eq!(
        failure(Outcome::Transport("refused".to_string())),
        (true, None, "Codex 网络请求失败（可重试）: refused".to_string())
    );
    assert!(matches!(post_codex(Outcome::Body(Json::Int(3))), Ok(Json::Int(3))));
}

#[test]
fn refusals_give_the_reason() {
    let body = || Some(parse(r#"{"error": {"message": "m", "param": "p", "code": "c"}}"#));
    assert_eq!(
        failure(Outcome::Status(400, body())).2,
        "Codex 请求失败（HTTP 400） 详情: c: m (param: p)"
    );
    assert_eq!(
        failure(Outcome::Status(403, body())).2,
        "Codex 凭证已过期（HTTP 401/403）。请重新运行 `codex login`。 详情: c: m (param: p)"
    );
    assert_eq!(
        failure(Outcome::Status(500, body())).2,
        "Codex 服务端错误（HTTP 500），将自动重试。"
    );
}

#[test]
fn reasons_are_exact() {
    let detail = |text: &str| extract_err_detail(&Some(parse(text)));
    assert_eq!(detail(r#"{"error": {"message": "m"}}"#), some("m"));
    assert_eq!(detail(r#"{"error": {"message": "m", "code": "c"}}"#), some("c: m"));
    assert_eq!(detail(r#"{"error": {"message": "m", "param": "p"}}"#), some("m (param: p)"));
    assert_eq!(detail(r#"{"error": {"message": "m", "param": null, "code": 3}}"#), some("m"));
    assert_eq!(detail(r#"{"error": {"code": "c"}}"#), None);
    assert_eq!(detail(r#"{"error": "m"}"#), None);
    assert_eq!(detail(r#"{"message": "m"}"#), None);
    assert_eq!(extract_err_detail(&None), None);
}

// ---- the log ----

#[test]
fn log_is_turned_on() {
    let none: Vec<String> = Vec::new();
    let verbose = |setting: Option<String>, args: &Vec<String>| {
        verbose(&mut Log::new(), setting, args)
    };
    for s in ["debug", "DEBUG", " Verbose\n", "1"] {
        assert!(verbose(some(s), &none), "{:?}", s);
    }
    for s in ["", "0", "true", "debugging", "11"] {
        assert!(!verbose(some(s), &none), "{:?}", s);
    }
    assert!(!verbose(None, &none));
    assert!(verbose(None, &vec!["prog".to_string(), "--verbose".to_string()]));
    assert!(verbose(some("0"), &vec!["-v".to_string()]));
    assert!(!verbose(None, &vec!["-V".to_string(), "--verbose=1".to_string()]));
}

#[test]
fn log_is_fixed_at_the_first_question() {
    let none: Vec<String> = Vec::new();
    let flag = vec!["-v".to_string()];
    let mut log = Log::new();
    assert!(log.on.is_none());
    assert!(verbose(&mut log, some("debug"), &none));
    assert_eq!(log.on, Some(true));
    assert!(verbose(&mut log, None, &none));
    assert!(verbose(&mut log, some("0"), &none));
    let mut log = Log::new();
    assert!(!verbose(&mut log, None, &none));
    assert!(!verbose(&mut log, some("debug"), &flag));
    assert_eq!(log.on, Some(false));
}

// ---- text ----

#[test]
fn white_space_is_that_of_unicode() {
    for n in 0..=0x10ffffu32 {
        if let Some(c) = char::from_u32(n) {
            assert_eq!(white_space(c), c.is_whitespace(), "{:x}", n);
        }
    }
}

#[test]
fn texts_are_trimmed_and_searched() {
    assert_eq!(trim("\u{3000}a b\u{a0}\n"), "a b");
    assert_eq!(trim(" \t"), "");
    assert_eq!(trim(""), "");
    assert!(contains("abcabd", "abd"));
    assert!(contains("abc", ""));
    assert!(!contains("ab", "abc"));
    assert!(same("é", "é"));
    assert!(!same("é", "e\u{301}"));
}

#[test]
fn texts_are_replaced_from_the_left() {
    assert_eq!(replace("aaaaa", "aa", "b"), "bba");
    assert_eq!(replace("abc", "b", ""), "ac");
    assert_eq!(replace("", "b", "x"), "");
    assert_eq!(replace("aab", "ab", "b"), "ab");
}

#[test]
fn texts_are_joined() {
    let lines = |v: &[&str]| v.iter().map(|s| s.to_string()).collect::<Vec<String>>();
    assert_eq!(join(&lines(&[]), "\n"), "");
    assert_eq!(join(&lines(&["a"]), "\n"), "a");
    assert_eq!(join(&lines(&["", "a", ""]), ", "), ", a, ");
}

#[test]
fn numbers_are_written() {
    assert_eq!(write_number(0, 10), "0");
    assert_eq!(write_number(1230, 10), "1230");
    assert_eq!(write_number(48879, 16), "beef");
    assert_eq!(write_number(5, 2), "101");
}
