//! The text of a page.

use codex_web_search_mcp::charset::decode_page;
use codex_web_search_mcp::charset::detect_encoding;
use codex_web_search_mcp::charset::label_in_groups;
use codex_web_search_mcp::charset::label_in_header;
use codex_web_search_mcp::charset::pick_encoding;
use codex_web_search_mcp::html::strip_html;
use codex_web_search_mcp::html::web_fetch;
use codex_web_search_mcp::html::Fetched;

// ---- markup ----

#[test]
fn strip_html_removes_tags_and_scripts() {
    let html = "<html><head><style>.a{color:red}</style></head><body><script>alert(1)</script><p>正文 <b>加粗</b></p></body></html>";
    let out = strip_html(html);
    assert!(!out.contains("<script"));
    assert!(!out.contains("<style"));
    assert!(!out.contains("<p>"));
    assert!(out.contains("正文"));
    assert!(out.contains("加粗"));
}

#[test]
fn stripped_text_is_exact() {
    assert_eq!(strip_html("<p>a</p>"), "a");
    assert_eq!(strip_html("a<b>c</b>d"), "a c d");
    assert_eq!(strip_html("a<style type=x>b\nc</style>d"), "a d");
    assert_eq!(strip_html("a<script>b<p>c</script>d<script></script>e"), "a d e");
    assert_eq!(strip_html(""), "");
}

#[test]
fn elements_are_found_in_any_case() {
    assert_eq!(strip_html("a<SCRIPT x>b</Script>c"), "a c");
    assert_eq!(strip_html("a<script>b</\u{17f}cript>c"), "a c");
    assert_eq!(strip_html("a<STYLE>b</\u{17f}tyle>c"), "a c");
    assert_eq!(strip_html("a<scripts>b</script>c"), "a c");
}

#[test]
fn element_without_an_end_loses_its_tag_only() {
    assert_eq!(strip_html("a<script>b"), "a b");
    assert_eq!(strip_html("a<script>b</script >c"), "a b c");
}

#[test]
fn element_runs_to_the_first_end() {
    assert_eq!(strip_html("<script>a<script>b</script>c</script>d"), "c d");
}

#[test]
fn tags_need_a_character_and_an_end() {
    assert_eq!(strip_html("<>a>b"), "<>a>b");
    assert_eq!(strip_html("a<b"), "a<b");
    assert_eq!(strip_html("a < b > c"), "a   c");
    assert_eq!(strip_html("<<a>b"), "b");
}

#[test]
fn entities_are_decoded_one_after_the_other() {
    assert_eq!(strip_html("&amp;lt;x&gt;&quot;&#39;&nbsp;y"), "<x>\"' y");
    assert_eq!(strip_html("&amp;nbsp;a&amp;amp;"), "a&amp;");
    assert_eq!(strip_html("&lt;script&gt;x"), "<script>x");
    assert_eq!(strip_html("&copy;"), "&copy;");
}

#[test]
fn blank_lines_are_thinned() {
    assert_eq!(strip_html("a\n \n\t\n\nb"), "a\n\nb");
    assert_eq!(strip_html("a\n\nb"), "a\n\nb");
    assert_eq!(strip_html("a\n\n\nb\n\n\n\n\nc"), "a\n\nb\n\nc");
    assert_eq!(strip_html("a\n\n\n b"), "a\n\n b");
    assert_eq!(strip_html("a\r\n\r\n\r\nb"), "a\r\n\r\n\r\nb");
}

#[test]
fn text_without_markup_stays() {
    assert_eq!(strip_html(" a > b\nc "), "a > b\nc");
}

fn holds_tag(text: &str) -> bool {
    let v: Vec<char> = text.chars().collect();
    (0..v.len()).any(|i| {
        v[i] == '<' && i + 1 < v.len() && v[i + 1] != '>' && v[i + 2..].contains(&'>')
    })
}

#[test]
fn no_tag_is_left_in_a_page_without_entities() {
    for html in ["<a<b>c>d", "x<<\n\n\n>>y", "<script><p></script<p>z>", "<\n \n\t\n>", "a<>b<c"] {
        assert!(!holds_tag(&strip_html(html)), "{:?}", html);
    }
    assert!(holds_tag(&strip_html("&lt;b&gt;")));
}

#[test]
fn three_line_feeds_are_never_left() {
    for html in ["a\n\n\n\n\nb", "a\n \n\n \n\n\nb", "a\n<b>\n<i>\n\nb", "a\n\n&nbsp;\n\n\nb"] {
        assert!(!strip_html(html).contains("\n\n\n"), "{:?}", html);
    }
    assert_eq!(strip_html("a\n<b>\n<i>\n\nb"), "a\n\nb");
}

// ---- encodings ----

#[test]
fn detect_encoding_gbk_label() {
    let enc = detect_encoding("text/html; charset=gbk", &[]);
    assert_eq!(enc, encoding_rs::GBK.name());
}

#[test]
fn detect_encoding_utf8_fallback() {
    let enc = detect_encoding("text/html", &[]);
    assert_eq!(enc, encoding_rs::UTF_8.name());
}

#[test]
fn header_labels_are_exact() {
    let label = |s: &str| label_in_header(s);
    assert_eq!(label("text/html"), None);
    assert_eq!(label("text/html; charset= gbk ;x=y"), Some("gbk".to_string()));
    assert_eq!(label("text/html; CHARSET=\"Big5\""), Some("Big5".to_string()));
    assert_eq!(label("text/html; charset='gbk'"), Some("gbk".to_string()));
    assert_eq!(label("text/html; charset='gbk\""), Some("'gbk\"".to_string()));
    assert_eq!(label("charset=a; charset=b"), Some("a".to_string()));
    assert_eq!(label("é; charset=a"), Some("a".to_string()));
    assert_eq!(label("charset="), Some(String::new()));
    assert_eq!(label("charset=\"\""), Some(String::new()));
}

#[test]
fn lone_quotation_mark_is_no_label() {
    assert_eq!(label_in_header("text/html; charset=\""), Some("\"".to_string()));
    assert_eq!(label_in_header("text/html; charset= ' ; x"), Some("'".to_string()));
    assert_eq!(detect_encoding("text/html; charset=\"", &[]), encoding_rs::UTF_8.name());
    assert_eq!(detect_encoding("text/html; charset='", b"<meta charset=gbk>"), "GBK");
    assert_eq!(decode_page("text/html; charset=\"", b"a\xffb"), "a\u{fffd}b");
    let page = Fetched::Page {
        content_type: Some("text/html; charset='".to_string()),
        body: b"<p>a\xff</p>".to_vec(),
    };
    assert_eq!(web_fetch(&page), Ok("a\u{fffd}".to_string()));
}

#[test]
fn header_goes_before_the_page() {
    let page = b"<meta charset=big5>";
    assert_eq!(detect_encoding("text/html; charset=gbk", page), "GBK");
    assert_eq!(detect_encoding("text/html; charset=nope", page), "Big5");
    assert_eq!(detect_encoding("text/html; charset=", page), "Big5");
    assert_eq!(detect_encoding("text/html", page), "Big5");
    assert_eq!(detect_encoding("text/html; charset=nope", b"<meta charset=nope>"), "UTF-8");
}

#[test]
fn labels_are_looked_up() {
    assert_eq!(detect_encoding("charset=\"GB2312\"; x", &[]), "GBK");
    assert_eq!(detect_encoding("charset=latin1", &[]), "windows-1252");
    assert_eq!(detect_encoding("charset=Shift_JIS", &[]), "Shift_JIS");
    assert_eq!(detect_encoding("charset=euc-jp", &[]), "EUC-JP");
}

#[test]
fn declarations_in_a_page() {
    let found = |page: &str| detect_encoding("", page.as_bytes());
    assert_eq!(found("<meta charset=\"gb2312\">"), "GBK");
    assert_eq!(found("<META CHARSET = ' euc-jp' >"), "EUC-JP");
    assert_eq!(found("<meta char\u{17f}et=gbk>"), "GBK");
    assert_eq!(
        found("<meta http-equiv=\"Content-Type\" content=\"text/html; charset=big5\">"),
        "Big5"
    );
    assert_eq!(found("content='a charset=gbk b charset=big5'"), "Big5");
    assert_eq!(found("content='a charset=gbk > charset=big5'"), "GBK");
    assert_eq!(found("content='a charset=gbk charset='"), "GBK");
    assert_eq!(found("content=a charset=gbk charset=big5"), "GBK");
    assert_eq!(found("content = \"charset = gbk; charset=big5\""), "Big5");
    assert_eq!(found("charset=\u{e9}gbk"), "UTF-8");
    assert_eq!(found("charset=; charset=gbk"), "GBK");
    assert_eq!(found("charset gbk"), "UTF-8");
    assert_eq!(found("charset=nope charset=gbk"), "UTF-8");
}

#[test]
fn declarations_count_in_the_first_bytes_only() {
    let mut near = vec![b' '; 4085];
    near.extend_from_slice(b"charset=gbk");
    assert_eq!(detect_encoding("", &near), "GBK");
    let mut far = vec![b' '; 4096];
    far.extend_from_slice(b"charset=gbk");
    assert_eq!(detect_encoding("", &far), "UTF-8");
}

#[test]
fn head_may_end_within_a_character() {
    let mut page = b"<meta charset=gbk>".to_vec();
    page.resize(4095, b' ');
    page.extend_from_slice("中".as_bytes());
    assert_eq!(detect_encoding("", &page), "GBK");
}

#[test]
fn head_may_hold_invalid_bytes() {
    assert_eq!(detect_encoding("", b"\xff\xfe\xff<meta charset=gbk>"), "GBK");
}

#[test]
fn groups_and_choice() {
    let a = || Some("a".to_string());
    let b = || Some("b".to_string());
    assert_eq!(label_in_groups(Some((a(), None))), a());
    assert_eq!(label_in_groups(Some((None, b()))), b());
    assert_eq!(label_in_groups(Some((a(), b()))), a());
    assert_eq!(label_in_groups(Some((None, None))), None);
    assert_eq!(label_in_groups(None), None);
    assert_eq!(pick_encoding(a(), b()), "a");
    assert_eq!(pick_encoding(None, b()), "b");
    assert_eq!(pick_encoding(None, None), "UTF-8");
}

const ZHONGWEN_GBK: [u8; 4] = [0xd6, 0xd0, 0xce, 0xc4];

#[test]
fn gbk_is_decoded() {
    assert_eq!(decode_page("text/html; charset=gbk", &ZHONGWEN_GBK), "中文");
    let mut page = b"<meta charset=\"gb2312\">".to_vec();
    page.extend_from_slice(&ZHONGWEN_GBK);
    assert_eq!(decode_page("text/html", &page), "<meta charset=\"gb2312\">中文");
}

#[test]
fn valid_utf8_is_read_as_utf8() {
    assert_eq!(decode_page("text/html; charset=gbk", "中文".as_bytes()), "中文");
    assert_eq!(decode_page("text/html; charset=\"", "中文".as_bytes()), "中文");
    assert_eq!(decode_page("", b""), "");
}

#[test]
fn invalid_bytes_are_replaced() {
    assert_eq!(decode_page("text/html", b"a\xffb"), "a\u{fffd}b");
    assert_eq!(decode_page("text/html; charset=latin1", b"a\xe9"), "a\u{e9}");
}

#[test]
fn byte_order_mark_goes_before_the_label() {
    assert_eq!(decode_page("text/html; charset=gbk", &[0xfe, 0xff, 0x00, 0x61]), "a");
}

// ---- fetches ----

#[test]
fn fetched_page_becomes_text() {
    let page = Fetched::Page {
        content_type: Some("text/html; charset=gbk".to_string()),
        body: [b"<p>".to_vec(), ZHONGWEN_GBK.to_vec(), b"</p>".to_vec()].concat(),
    };
    assert_eq!(web_fetch(&page), Ok("中文".to_string()));
    let bare = Fetched::Page { content_type: None, body: b"<b>x</b>".to_vec() };
    assert_eq!(web_fetch(&bare), Ok("x".to_string()));
}

#[test]
fn fetches_are_readable() {
    assert!(Fetched::Failed("x".to_string()).is_readable());
    assert!(Fetched::Unreadable("x".to_string()).is_readable());
    assert!(Fetched::Page { content_type: None, body: b"a\xff".to_vec() }.is_readable());
    assert!(Fetched::Page { content_type: None, body: "中".as_bytes().to_vec() }.is_readable());
}

#[test]
fn failed_fetches_say_why() {
    assert_eq!(
        web_fetch(&Fetched::Failed("status 404".to_string())),
        Err("抓取失败: status 404".to_string())
    );
    assert_eq!(
        web_fetch(&Fetched::Unreadable("reset".to_string())),
        Err("读取正文失败: reset".to_string())
    );
}
