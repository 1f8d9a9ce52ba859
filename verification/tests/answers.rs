//! The text of an answer and its sources.

use codex_web_search_mcp::citations::cite_label;
use codex_web_search_mcp::citations::clean_output;
use codex_web_search_mcp::citations::rewrite_markers;
use codex_web_search_mcp::citations::tidy;
use codex_web_search_mcp::citations::Refs;
use codex_web_search_mcp::json::Json;
use codex_web_search_mcp::render::format_text;
use codex_web_search_mcp::render::lay_out;
use codex_web_search_mcp::render::lines_of;
use codex_web_search_mcp::results::is_backend_error;
use codex_web_search_mcp::results::normalize_body;
use serde_json::Value;

fn string(s: &str) -> Json {
    Json::Str(s.to_string())
}

fn object(members: Vec<(&str, Json)>) -> Json {
    Json::Object(members.into_iter().map(|(k, v)| (k.to_string(), v)).collect())
}

fn to_value(j: &Json) -> Value {
    match j {
        Json::Null => Value::Null,
        Json::Bool(b) => Value::Bool(*b),
        Json::Int(n) => Value::from(*n),
        Json::UInt(n) => Value::from(*n),
        Json::Float(bits) => Value::from(f64::from_bits(*bits)),
        Json::Str(s) => Value::String(s.clone()),
        Json::Array(a) => Value::Array(a.iter().map(to_value).collect()),
        Json::Object(m) => {
            Value::Object(m.iter().map(|(k, v)| (k.clone(), to_value(v))).collect())
        }
    }
}

fn from_value(v: &Value) -> Json {
    match v {
        Value::Null => Json::Null,
        Value::Bool(b) => Json::Bool(*b),
        Value::Number(n) => {
            if let Some(i) = n.as_i64() {
                Json::Int(i)
            } else if let Some(u) = n.as_u64() {
                Json::UInt(u)
            } else {
                Json::Float(n.as_f64().unwrap().to_bits())
            }
        }
        Value::String(s) => Json::Str(s.clone()),
        Value::Array(a) => Json::Array(a.iter().map(from_value).collect()),
        Value::Object(m) => {
            Json::Object(m.iter().map(|(k, v)| (k.clone(), from_value(v))).collect())
        }
    }
}

fn value(text: &str) -> Value {
    serde_json::from_str(text).unwrap()
}

fn parse(text: &str) -> Json {
    from_value(&value(text))
}

fn refs_of(entries: &[(&str, &str, &str)]) -> Refs {
    let mut refs = Refs::new();
    for (id, title, domain) in entries {
        refs.insert(id.to_string(), (title.to_string(), domain.to_string()));
    }
    refs
}

// ---- citations ----

#[test]
fn clean_output_rewrites_known_ref() {
    let mut refs = Refs::new();
    refs.insert(
        "turn0search0".to_string(),
        ("示例页".to_string(), "example.com".to_string()),
    );
    let inp = "答案 \u{e200}cite\u{e202}turn0search0\u{e201} 完毕";
    let out = clean_output(inp, &refs);
    assert!(
        out.contains("[turn0search0: 示例页 → example.com]"),
        "got: {}",
        out
    );
}

#[test]
fn clean_output_empty_cid_dropped() {
    let refs = Refs::new();
    let inp = "x\u{e200}cite\u{e202}\u{e201}y";
    let out = clean_output(inp, &refs);
    assert_eq!(out, "xy");
}

#[test]
fn clean_output_unknown_ref_kept() {
    let refs = Refs::new();
    let inp = "see \u{e200}cite\u{e202}turn0search9\u{e201}";
    let out = clean_output(inp, &refs);
    assert!(out.contains("[turn0search9]"), "got: {}", out);
}

#[test]
fn labels_are_exact() {
    let refs = refs_of(&[("a", "Title", "a.com"), ("b", "Title", ""), ("c", "", "")]);
    assert_eq!(cite_label(" a ", &refs), " [a: Title → a.com]");
    assert_eq!(cite_label("b", &refs), " [b: Title]");
    assert_eq!(cite_label("c", &refs), " [c: ]");
    assert_eq!(cite_label("d", &refs), " [d]");
    assert_eq!(cite_label(" \u{3000}", &refs), "");
}

#[test]
fn later_reference_takes_the_place_of_an_earlier_one() {
    let refs = refs_of(&[("a", "one", "x.com"), ("a", "two", "")]);
    assert_eq!(cite_label("a", &refs), " [a: two]");
    let entry = refs.get("a").unwrap();
    assert_eq!((entry.0.as_str(), entry.1.as_str()), ("two", ""));
    assert!(refs.get("b").is_none());
}

#[test]
fn text_around_a_marker_is_kept() {
    let refs = refs_of(&[("turn0search0", "示例页", "example.com")]);
    let inp = "答案 \u{e200}cite\u{e202}turn0search0\u{e201} 完毕";
    assert_eq!(
        rewrite_markers(inp, &refs),
        "答案  [turn0search0: 示例页 → example.com] 完毕"
    );
}

#[test]
fn each_marker_gets_its_label() {
    let refs = refs_of(&[("a", "A", "")]);
    let inp = "1\u{e200}cite\u{e202}a\u{e201}2\u{e200}cite\u{e202}b\u{e201}3";
    assert_eq!(rewrite_markers(inp, &refs), "1 [a: A]2 [b]3");
}

#[test]
fn marker_runs_to_the_first_end() {
    let refs = Refs::new();
    let inp = "\u{e200}cite\u{e202}x\u{e200}cite\u{e202}y\u{e201}z\u{e201}";
    assert_eq!(clean_output(inp, &refs), "[xcitey]z");
}

#[test]
fn unfinished_marker_loses_its_private_characters_only() {
    let refs = Refs::new();
    assert_eq!(clean_output("a\u{e200}cite\u{e202}b", &refs), "aciteb");
}

#[test]
fn private_use_characters_are_dropped() {
    let refs = Refs::new();
    assert_eq!(
        clean_output("a\u{e000}b\u{f8ff}c\u{dfff7}d\u{f900}", &refs),
        "abc\u{dfff7}d\u{f900}"
    );
    let titled = refs_of(&[("r", "t\u{e123}u", "")]);
    assert_eq!(clean_output("\u{e200}cite\u{e202}r\u{e201}", &titled), "[r: tu]");
}

#[test]
fn word_limits_are_dropped() {
    let refs = Refs::new();
    assert_eq!(clean_output("a[wordlim: 200]b", &refs), "ab");
    assert_eq!(clean_output("a[wordlim:200]b[wordlim:\n\t7]c", &refs), "abc");
    assert_eq!(clean_output("a[wordlim:\u{a0}\u{663}]b", &refs), "ab");
    assert_eq!(clean_output("a[wordlim:]b", &refs), "a[wordlim:]b");
    assert_eq!(clean_output("a[wordlim: 1 2]b", &refs), "a[wordlim: 1 2]b");
    assert_eq!(clean_output("a[Wordlim: 1]b", &refs), "a[Wordlim: 1]b");
    assert_eq!(clean_output("[wordlim:[wordlim:1]", &refs), "[wordlim:");
}

#[test]
fn line_numbers_are_dropped() {
    let refs = Refs::new();
    assert_eq!(clean_output("L1: x", &refs), "x");
    assert_eq!(clean_output("a L12:b", &refs), "a b");
    assert_eq!(clean_output("a\nL3: b\nL4: c", &refs), "a\nb\nc");
    assert_eq!(clean_output("a L3:  b", &refs), "a  b");
    assert_eq!(clean_output("a L\u{663}: b", &refs), "a b");
    assert_eq!(clean_output("L1: L2: x", &refs), "L2: x");
    assert_eq!(clean_output("a L1: L2: x", &refs), "a L2: x");
    assert_eq!(clean_output("aL1: b", &refs), "aL1: b");
    assert_eq!(clean_output("a L: b", &refs), "a L: b");
    assert_eq!(clean_output("a l1: b", &refs), "a l1: b");
    assert_eq!(clean_output("a L1 b", &refs), "a L1 b");
}

#[test]
fn line_feeds_are_thinned_once() {
    assert_eq!(tidy("a\n\n\nb"), "a\n\nb");
    assert_eq!(tidy("a\n\n\n\nb"), "a\n\n\nb");
    assert_eq!(tidy("\n a\u{3000}\u{a0}"), "a");
    assert_eq!(tidy(""), "");
}

#[test]
fn cleaned_text_has_no_private_character_and_no_white_space_around_it() {
    let refs = refs_of(&[("a", "\u{e500}", "")]);
    let out = clean_output("\n\u{e300} x\u{e200}cite\u{e202}a\u{e201} \u{e301}\n", &refs);
    assert_eq!(out, "x [a: ]");
    assert!(out.chars().all(|c| !('\u{e000}'..='\u{f8ff}').contains(&c)));
    assert_eq!(out.trim(), out);
}

// ---- sources ----

#[test]
fn is_backend_error_detects() {
    assert!(is_backend_error(&object(vec![("output", string("Internal Error occurred"))])));
    assert!(is_backend_error(&object(vec![("output", string("Unable to resolve the query"))])));
    assert!(!is_backend_error(&object(vec![("output", string("正常结果"))])));
}

#[test]
fn backend_error_is_told_by_the_text_alone() {
    assert!(is_backend_error(&parse(r#"{"output": "failed due to invalid arguments."}"#)));
    assert!(!is_backend_error(&parse(r#"{"output": "internal error"}"#)));
    assert!(!is_backend_error(&parse(r#"{"error": "Internal Error"}"#)));
    assert!(!is_backend_error(&parse(r#"{"output": 3}"#)));
    assert!(!is_backend_error(&parse("[]")));
}

#[test]
fn normalize_body_dedupes_results() {
    let body = object(vec![
        ("output", string("o")),
        (
            "results",
            Json::Array(vec![
                object(vec![
                    ("url", string("https://a.com")),
                    ("ref_id", string("turn0search0")),
                    ("title", string("A")),
                ]),
                object(vec![
                    ("url", string("https://a.com")),
                    ("ref_id", string("turn0search0")),
                    ("title", string("A")),
                ]),
                object(vec![
                    ("url", string("https://b.com")),
                    ("ref_id", string("turn0search1")),
                    ("title", string("B")),
                ]),
            ]),
        ),
    ]);
    let norm = normalize_body(&body);
    let arr = norm.array_at("results").unwrap();
    assert_eq!(arr.len(), 2, "should dedupe identical ref_id/url entries");
}

#[test]
fn normalized_body_is_exact() {
    let body = parse(
        r#"{
            "output": " see \ue200cite\ue202r1\ue201 ",
            "encrypted_output": "x",
            "results": [
                {"url": "https://a.com", "ref_id": "r1", "title": "old", "domain": "a.com", "type": "youtube"},
                {"url": "https://u.com", "snippet": "s"},
                {"title": "no key"},
                {"ref_id": "", "url": "https://v.com"},
                {"ref_id": "r1", "title": "new"},
                {"url": "https://u.com", "title": "again"},
                7
            ]
        }"#,
    );
    let expected = value(
        r#"{
            "output": "see  [r1: new]",
            "results": [
                {"url": "https://a.com", "ref_id": "r1", "title": "old", "snippet": null, "domain": "a.com"},
                {"url": "https://u.com", "ref_id": null, "title": null, "snippet": "s", "domain": null}
            ]
        }"#,
    );
    assert_eq!(to_value(&normalize_body(&body)), expected);
}

#[test]
fn reference_and_address_share_their_keys() {
    let body = parse(r#"{"results": [{"ref_id": "k", "url": "u"}, {"url": "k"}, {"url": "u"}]}"#);
    let norm = normalize_body(&body);
    let arr = norm.array_at("results").unwrap();
    assert_eq!(arr.len(), 2);
    assert_eq!(arr[0].str_at("ref_id"), Some("k"));
    assert_eq!(arr[1].str_at("url"), Some("u"));
}

#[test]
fn sources_of_normalized_sources_are_the_same() {
    let body = parse(
        r#"{"output": "o", "results": [{"ref_id": "a"}, {"url": "b"}, {"ref_id": "a", "title": "t"}]}"#,
    );
    let once = normalize_body(&body);
    let twice = normalize_body(&once);
    assert_eq!(to_value(&once), to_value(&twice));
}

#[test]
fn body_without_results_is_empty() {
    let expected = value(r#"{"output": "", "results": []}"#);
    assert_eq!(to_value(&normalize_body(&parse("{}"))), expected);
    assert_eq!(to_value(&normalize_body(&parse("null"))), expected);
    assert_eq!(to_value(&normalize_body(&parse(r#"{"output": 1, "results": {}}"#))), expected);
}

// ---- the text ----

fn three_sources() -> Json {
    object(vec![
        ("output", string("结果")),
        (
            "results",
            Json::Array(vec![
                object(vec![
                    ("title", string("标题A")),
                    ("url", string("https://a.com")),
                    ("ref_id", string("turn0search0")),
                    ("domain", string("a.com")),
                ]),
                object(vec![
                    ("title", string("标题B")),
                    ("url", string("https://b.com")),
                    ("ref_id", string("turn0search1")),
                    ("domain", string("b.com")),
                ]),
                object(vec![
                    ("title", string("标题A2")),
                    ("url", string("https://a.com/x")),
                    ("ref_id", string("turn0search2")),
                    ("domain", string("a.com")),
                ]),
            ]),
        ),
    ])
}

#[test]
fn format_text_groups_by_domain() {
    let norm = object(vec![
        ("output", string("结果")),
        (
            "results",
            Json::Array(vec![
                object(vec![
                    ("title", string("标题A")),
                    ("url", string("https://a.com")),
                    ("ref_id", string("turn0search0")),
                    ("domain", string("a.com")),
                ]),
                object(vec![
                    ("title", string("标题B")),
                    ("url", string("https://b.com")),
                    ("ref_id", string("turn0search1")),
                    ("domain", string("b.com")),
                ]),
                object(vec![
                    ("title", string("标题A2")),
                    ("url", string("https://a.com/x")),
                    ("ref_id", string("turn0search2")),
                    ("domain", string("a.com")),
                ]),
            ]),
        ),
    ]);
    let out = format_text(&norm, true);
    assert!(out.contains("Sources:"));
    // same domain clustered: a.com header appears once, both a.com items before b.com
    let pos_a = out.find("— a.com —").unwrap();
    let pos_b = out.find("— b.com —").unwrap();
    assert!(pos_a < pos_b, "a.com group should precede b.com group");
    assert!(out.matches("— a.com —").count() == 1, "each domain header printed once");
}

#[test]
fn formatted_text_is_exact() {
    let expected = "结果\n\nSources:\n— a.com —\n[1] (ref: turn0search0) 标题A\n    https://a.com\n\
        [2] (ref: turn0search2) 标题A2\n    https://a.com/x\n— b.com —\n\
        [3] (ref: turn0search1) 标题B\n    https://b.com";
    assert_eq!(format_text(&three_sources(), true), expected);
}

#[test]
fn references_are_hidden_on_request() {
    let expected = "结果\n\nSources:\n— a.com —\n[1] 标题A\n    https://a.com\n[2] 标题A2\n    \
        https://a.com/x\n— b.com —\n[3] 标题B\n    https://b.com";
    assert_eq!(format_text(&three_sources(), false), expected);
}

#[test]
fn hidden_references_do_not_matter() {
    let with = parse(r#"{"output": "o", "results": [{"ref_id": "a", "title": "t", "domain": "d"}, {"ref_id": "search0"}]}"#);
    let without = parse(r#"{"output": "o", "results": [{"title": "t", "domain": "d"}, {"ref_id": "z"}]}"#);
    assert_eq!(format_text(&with, false), format_text(&without, false));
    assert_ne!(format_text(&with, true), format_text(&without, true));
}

#[test]
fn only_the_order_by_domain_matters() {
    let mixed = parse(
        r#"{"results": [{"title": "1", "domain": "a"}, {"title": "2", "domain": "b"},
            {"title": "3", "domain": "a"}]}"#,
    );
    let sorted = parse(
        r#"{"results": [{"title": "1", "domain": "a"}, {"title": "3", "domain": "a"},
            {"title": "2", "domain": "b"}]}"#,
    );
    assert_eq!(format_text(&mixed, true), format_text(&sorted, true));
}

#[test]
fn source_is_shown_by_what_it_has() {
    let norm = parse(
        r#"{"results": [
            {"ref_id": "r"},
            {"url": "u"},
            {"domain": "d.com", "snippet": "s"},
            {"title": "t", "url": "v", "domain": "d.com", "snippet": "w"},
            5
        ]}"#,
    );
    let expected = "\nSources:\n[1] (ref: r) (untitled)\n[2] u\n    u\n[3] (untitled)\n— d.com —\n\
        [4] (untitled)\n    d.com\n    s\n[5] t\n    v\n    w";
    assert_eq!(format_text(&norm, true), expected);
}

#[test]
fn nothing_is_said_so() {
    assert_eq!(format_text(&parse("{}"), true), "No results returned.");
    assert_eq!(format_text(&parse(r#"{"output": "", "results": []}"#), true), "No results returned.");
    assert_eq!(format_text(&parse(r#"{"output": "x", "results": []}"#), true), "x");
    assert_eq!(lines_of(&parse("{}"), true).len(), 0);
    assert_eq!(lay_out(&Vec::new(), true), "No results returned.");
    assert_eq!(lay_out(&vec!["a".to_string(), "b".to_string()], false), "a\nb");
}

const NOTE: &str = "\n\n（文档内容里 [turn0searchN: ...] / [cN: ...] 标记即是可点击的链接元素，其 ref_id（如 turn0searchN）可直接用于 open/click 跟随该链接继续深挖）";

fn is_noted(output: &str) -> bool {
    let norm = object(vec![("output", string(output))]);
    let text = format_text(&norm, true);
    assert_eq!(format_text(&norm, false), output);
    if text == output {
        false
    } else {
        assert_eq!(text, format!("{}{}", output, NOTE));
        true
    }
}

#[test]
fn markers_of_links_are_explained() {
    assert!(is_noted("see [turn0search0: T → d]"));
    assert!(is_noted("[c1: x]"));
    assert!(is_noted("[c\u{663}2:"));
    assert!(is_noted("[search:"));
    assert!(is_noted("[é_search2:"));
    assert!(is_noted("[[c1:"));
    assert!(!is_noted("[c: x]"));
    assert!(!is_noted("[cx: x]"));
    assert!(!is_noted("[c1 : x]"));
    assert!(!is_noted("[turn0search0]"));
    assert!(!is_noted("[my search: x]"));
    assert!(!is_noted("[Search: x]"));
    assert!(!is_noted("c1: search:"));
}
