//! The text of a page without its markup.

use vstd::prelude::*;
use vstd::utf8::*;

use crate::charset::decodable;
use crate::charset::decode_page;
use crate::charset::is_utf8;
use crate::charset::page_source;
use crate::patterns::blank_lines_end;
use crate::patterns::blank_lines_replaced;
use crate::patterns::elements_replaced;
use crate::patterns::first_word;
use crate::patterns::is_in_any_case;
use crate::patterns::lemma_blank_lines_end;
use crate::patterns::lemma_first_word;
use crate::patterns::lemma_run_end;
use crate::patterns::replace_all;
use crate::patterns::run_end;
use crate::patterns::tag_end;
use crate::patterns::tags_replaced;
use crate::patterns::word_at;
use crate::patterns::BLANK_LINES;
use crate::patterns::SCRIPT;
use crate::patterns::STYLE;
use crate::patterns::TAG;
use crate::text::cat;
use crate::text::first_occurrence;
use crate::text::has_clean_ends;
use crate::text::is_blank;
use crate::text::is_white_space;
use crate::text::lemma_first_occurrence;
use crate::text::lemma_replaced_absent;
use crate::text::lemma_replaced_one;
use crate::text::lemma_replaced_parts;
use crate::text::lemma_trimmed;
use crate::text::occurs;
use crate::text::occurs_at;
use crate::text::replace;
use crate::text::replaced;
use crate::text::trim;
use crate::text::trimmed;
use crate::text::trimmed_end;
use crate::text::trimmed_start;

verus! {

/// A page with a space in place of each script, each style and each tag.
pub open spec fn markup_blanked(html: Seq<char>) -> Seq<char> {
    let no_scripts = elements_replaced(html, "<script"@, "</script>"@, " "@);
    let no_styles = elements_replaced(no_scripts, "<style"@, "</style>"@, " "@);
    tags_replaced(no_styles, " "@)
}

/// A text with its entities turned into the characters that they stand for, one after the other.
pub open spec fn entities_decoded(s: Seq<char>) -> Seq<char> {
    let s = replaced(s, "&amp;"@, "&"@);
    let s = replaced(s, "&lt;"@, "<"@);
    let s = replaced(s, "&gt;"@, ">"@);
    let s = replaced(s, "&quot;"@, "\""@);
    let s = replaced(s, "&#39;"@, "'"@);
    replaced(s, "&nbsp;"@, " "@)
}

/// The plain text of a page.
pub open spec fn page_text(html: Seq<char>) -> Seq<char> {
    trimmed(blank_lines_replaced(entities_decoded(markup_blanked(html)), "\n\n"@))
}

fn blank_markup(html: &str) -> (r: String)
    ensures
        r@ == markup_blanked(html@),
{
    proof {
        reveal_strlit(" ");
    }
    let s = replace_all(SCRIPT, html, " ");
    let s = replace_all(STYLE, s.as_str(), " ");
    replace_all(TAG, s.as_str(), " ")
}

fn decode_entities(s: &str) -> (r: String)
    ensures
        r@ == entities_decoded(s@),
{
    proof {
        reveal_strlit("&amp;");
        reveal_strlit("&lt;");
        reveal_strlit("&gt;");
        reveal_strlit("&quot;");
        reveal_strlit("&#39;");
        reveal_strlit("&nbsp;");
    }
    let s = replace(s, "&amp;", "&");
    let s = replace(s.as_str(), "&lt;", "<");
    let s = replace(s.as_str(), "&gt;", ">");
    let s = replace(s.as_str(), "&quot;", "\"");
    let s = replace(s.as_str(), "&#39;", "'");
    replace(s.as_str(), "&nbsp;", " ")
}

/// Strips scripts, styles and tags off a page, decodes its entities and thins its blank lines.
pub fn strip_html(html: &str) -> (r: String)
    ensures
        r@ == page_text(html@),
{
    let s = decode_entities(blank_markup(html).as_str());
    proof {
        reveal_strlit("\n\n");
    }
    let s = replace_all(BLANK_LINES, s.as_str(), "\n\n");
    trim(s.as_str())
}

/// How the request for a page ended.
pub enum Fetched {
    /// No answer, or an answer that says no; holds why.
    Failed(String),
    /// An answer whose body could not be read; holds why.
    Unreadable(String),
    /// A page.
    Page { content_type: Option<String>, body: Vec<u8> },
}

impl Fetched {
    /// The content type of a page; empty where it has none.
    pub open spec fn content_type(self) -> Seq<char> {
        match self {
            Fetched::Page { content_type: Some(t), .. } => t@,
            _ => Seq::empty(),
        }
    }

    /// The bytes of a page, where they are not valid UTF-8, can be decoded.
    pub open spec fn readable(self) -> bool {
        self matches Fetched::Page { body, .. } ==> valid_utf8(body@) || decodable(body@)
    }
}

impl Fetched {
    /// Whether the bytes of a page can be decoded.
    pub fn is_readable(&self) -> (r: bool)
        ensures
            r == self.readable(),
    {
        match self {
            Fetched::Page { body, .. } => is_utf8(body.as_slice()) || body.len() <= usize::MAX / 16,
            _ => true,
        }
    }
}

/// Makes plain text of a page, or says why there is none.
pub fn web_fetch(fetched: &Fetched) -> (r: Result<String, String>)
    requires
        fetched.readable(),
    ensures
        match *fetched {
            Fetched::Failed(why) => r matches Err(m) && m@ == "抓取失败: "@ + why@,
            Fetched::Unreadable(why) => r matches Err(m) && m@ == "读取正文失败: "@ + why@,
            Fetched::Page { body, .. } => r matches Ok(t) && t@ == page_text(
                page_source(fetched.content_type(), body@),
            ),
        },
{
    match fetched {
        Fetched::Failed(why) => Err(cat("抓取失败: ", why.as_str())),
        Fetched::Unreadable(why) => Err(cat("读取正文失败: ", why.as_str())),
        Fetched::Page { content_type, body } => {
            let declared = match content_type {
                Some(t) => t.clone(),
                None => String::new(),
            };
            Ok(strip_html(decode_page(declared.as_str(), body.as_slice()).as_str()))
        },
    }
}

// ---------------------------------------------------------------------------
// Laws
// ---------------------------------------------------------------------------
proof fn lemma_tags_kept(s: Seq<char>, by: Seq<char>)
    requires
        !s.contains('>'),
    ensures
        tags_replaced(s, by) == s,
    decreases s.len(),
{
    if s.len() > 0 {
        lemma_no_end(s, 2);
        assert(forall|i: int| 0 <= i < s.skip(1).len() ==> s.skip(1)[i] == s[i + 1]);
        lemma_tags_kept(s.skip(1), by);
        assert(seq![s.first()] + s.skip(1) =~= s);
    }
}

proof fn lemma_no_end(s: Seq<char>, from: int)
    requires
        0 <= from,
        forall|i: int| from <= i < s.len() ==> s[i] != '>',
    ensures
        first_occurrence(s, seq!['>'], from) is None,
{
    lemma_first_occurrence(s, seq!['>'], from);
    if let Some(j) = first_occurrence(s, seq!['>'], from) {
        assert(s.subrange(j, j + 1)[0] == '>');
    }
}

/// Where tags have been turned into spaces, no tag is left.
pub proof fn lemma_no_tag_left(s: Seq<char>, i: int)
    requires
        0 <= i <= tags_replaced(s, " "@).len(),
    ensures
        tag_end(tags_replaced(s, " "@).skip(i)) is None,
    decreases s.len(),
{
    reveal_strlit(" ");
    let r = tags_replaced(s, " "@);
    if s.len() > 0 {
        lemma_first_occurrence(s, seq!['>'], 2);
        let n = match tag_end(s) {
            Some(j) => j + 1,
            None => 1,
        };
        let rest = tags_replaced(s.skip(n), " "@);
        assert(r.skip(1) =~= rest);
        if i > 0 {
            lemma_no_tag_left(s.skip(n), i - 1);
            assert(r.skip(i) =~= rest.skip(i - 1));
        } else {
            assert(r.skip(0) =~= r);
            if tag_end(s) is None && s[0] == '<' && s.len() > 1 {
                if s[1] == '>' {
                    assert(s.skip(1)[0] == '>');
                    assert(r[1] == '>');
                } else {
                    assert forall|k: int| 1 <= k < s.len() implies s[k] != '>' by {
                        if s[k] == '>' {
                            assert(s.subrange(k, k + 1) =~= seq!['>']);
                            assert(occurs_at(s, seq!['>'], k));
                        }
                    }
                    assert(forall|k: int| 0 <= k < s.skip(1).len() ==> s.skip(1)[k] == s[k + 1]);
                    lemma_tags_kept(s.skip(1), " "@);
                    lemma_no_end(r, 2);
                }
            }
        }
    }
}

/// A page with its markup blanked has no tag left.
pub proof fn lemma_markup_blanked(html: Seq<char>, i: int)
    requires
        0 <= i <= markup_blanked(html).len(),
    ensures
        tag_end(markup_blanked(html).skip(i)) is None,
{
    let no_scripts = elements_replaced(html, "<script"@, "</script>"@, " "@);
    lemma_no_tag_left(elements_replaced(no_scripts, "<style"@, "</style>"@, " "@), i);
}

proof fn lemma_elements_kept(s: Seq<char>, open: Seq<char>, close: Seq<char>, by: Seq<char>)
    requires
        forall|j: int| 0 <= j ==> !word_at(s, close, j),
    ensures
        elements_replaced(s, open, close, by) == s,
    decreases s.len(),
{
    if s.len() > 0 && open.len() > 0 {
        lemma_first_word(s, close, open.len() as int);
        assert forall|j: int| 0 <= j implies !word_at(s.skip(1), close, j) by {
            lemma_word_at_skip(s, close, 1, j);
            assert(!word_at(s, close, j + 1));
        }
        lemma_elements_kept(s.skip(1), open, close, by);
        assert(seq![s.first()] + s.skip(1) =~= s);
    }
}

proof fn lemma_word_at_skip(s: Seq<char>, word: Seq<char>, n: int, j: int)
    requires
        0 <= n <= s.len(),
        0 <= j,
    ensures
        word_at(s.skip(n), word, j) == word_at(s, word, n + j),
{
    if word_at(s.skip(n), word, j) {
        assert forall|k: int| 0 <= k < word.len() implies is_in_any_case(
            #[trigger] s[n + j + k],
            word[k],
        ) by {
            assert(s.skip(n)[j + k] == s[n + j + k]);
        }
    }
    if word_at(s, word, n + j) {
        assert forall|k: int| 0 <= k < word.len() implies is_in_any_case(
            #[trigger] s.skip(n)[j + k],
            word[k],
        ) by {
            assert(s.skip(n)[j + k] == s[n + j + k]);
        }
    }
}

/// The characters before the first space of the result stand at the start of the text.
proof fn lemma_elements_prefix(s: Seq<char>, open: Seq<char>, close: Seq<char>, n: int)
    requires
        open.len() > 0,
        0 <= n <= elements_replaced(s, open, close, " "@).len(),
        forall|k: int| 0 <= k < n ==> elements_replaced(s, open, close, " "@)[k] != ' ',
    ensures
        n <= s.len(),
        elements_replaced(s, open, close, " "@) == s.take(n) + elements_replaced(
            s.skip(n),
            open,
            close,
            " "@,
        ),
    decreases n,
{
    reveal_strlit(" ");
    let r = elements_replaced(s, open, close, " "@);
    if n == 0 {
        assert(s.skip(0) =~= s);
        assert(s.take(0) + r =~= r);
    } else {
        lemma_elements_prefix(s, open, close, n - 1);
        let t = s.skip(n - 1);
        let rest = elements_replaced(t, open, close, " "@);
        assert(rest.len() > 0);
        assert(r[n - 1] == rest[0]);
        lemma_first_word(t, close, open.len() as int);
        assert(t.len() > 0);
        assert(t.skip(1) =~= s.skip(n));
        assert(s.take(n - 1) + (seq![t.first()] + elements_replaced(s.skip(n), open, close, " "@))
            =~= s.take(n) + elements_replaced(s.skip(n), open, close, " "@));
    }
}

/// Where the elements between `open` and `close` have been turned into spaces, none is left.
pub proof fn lemma_no_element_left(
    s: Seq<char>,
    open: Seq<char>,
    close: Seq<char>,
    i: int,
    j: int,
)
    requires
        open.len() > 0,
        forall|k: int| 0 <= k < open.len() ==> #[trigger] open[k] != ' ',
        0 <= i,
        i + open.len() <= j,
    ensures
        !(word_at(elements_replaced(s, open, close, " "@), open, i) && word_at(
            elements_replaced(s, open, close, " "@),
            close,
            j,
        )),
    decreases s.len(),
{
    reveal_strlit(" ");
    let r = elements_replaced(s, open, close, " "@);
    let n = open.len() as int;
    if s.len() > 0 && word_at(r, open, i) && word_at(r, close, j) {
        lemma_first_word(s, close, n);
        if i > 0 {
            let m = match (word_at(s, open, 0), first_word(s, close, n)) {
                (true, Some(k)) => k + close.len() as int,
                _ => 1,
            };
            let rest = elements_replaced(s.skip(m), open, close, " "@);
            assert(r.skip(1) =~= rest);
            lemma_word_at_skip(r, open, 1, i - 1);
            lemma_word_at_skip(r, close, 1, j - 1);
            lemma_no_element_left(s.skip(m), open, close, i - 1, j - 1);
        } else {
            assert forall|k: int| 0 <= k < n implies r[k] != ' ' by {
                assert(is_in_any_case(r[0 + k], open[k]));
            }
            lemma_elements_prefix(s, open, close, n);
            assert(word_at(s, open, 0)) by {
                assert forall|k: int| 0 <= k < n implies is_in_any_case(
                    #[trigger] s[0 + k],
                    open[k],
                ) by {
                    assert(r[0 + k] == s[k]);
                }
            }
            assert(first_word(s, close, n) is None) by {
                if first_word(s, close, n) is Some {
                    assert(r[0] == ' ');
                }
            }
            assert forall|k: int| 0 <= k implies !word_at(s.skip(n), close, k) by {
                lemma_word_at_skip(s, close, n, k);
            }
            lemma_elements_kept(s.skip(n), open, close, " "@);
            assert(s.take(n) + s.skip(n) =~= s);
            assert(!word_at(s, close, j));
        }
    }
}

/// A text without `<` and `&` has no markup: only its blank lines and the white space around it
/// are touched.
pub proof fn lemma_plain_text(text: Seq<char>)
    requires
        !text.contains('<'),
        !text.contains('&'),
    ensures
        page_text(text) == trimmed(blank_lines_replaced(text, "\n\n"@)),
{
    reveal_strlit("<script");
    reveal_strlit("<style");
    lemma_no_opening(text, "<script"@, "</script>"@);
    lemma_no_opening(text, "<style"@, "</style>"@);
    lemma_no_tag(text);
    lemma_no_entity(text);
}

proof fn lemma_no_opening(s: Seq<char>, open: Seq<char>, close: Seq<char>)
    requires
        open.len() > 0,
        open[0] == '<',
        !s.contains('<'),
    ensures
        elements_replaced(s, open, close, " "@) == s,
    decreases s.len(),
{
    if s.len() > 0 {
        if word_at(s, open, 0) {
            assert(is_in_any_case(s[0int + 0], open[0]));
            assert(s.contains(s[0]));
        }
        assert(forall|k: int| 0 <= k < s.skip(1).len() ==> s.skip(1)[k] == s[k + 1]);
        lemma_no_opening(s.skip(1), open, close);
        assert(seq![s.first()] + s.skip(1) =~= s);
    }
}

proof fn lemma_no_tag(s: Seq<char>)
    requires
        !s.contains('<'),
    ensures
        tags_replaced(s, " "@) == s,
    decreases s.len(),
{
    if s.len() > 0 {
        assert(s.contains(s[0]));
        assert(forall|k: int| 0 <= k < s.skip(1).len() ==> s.skip(1)[k] == s[k + 1]);
        lemma_no_tag(s.skip(1));
        assert(seq![s.first()] + s.skip(1) =~= s);
    }
}

proof fn lemma_replaced_nothing(s: Seq<char>, from: Seq<char>, to: Seq<char>)
    requires
        from.len() > 0,
        !s.contains(from[0]),
    ensures
        replaced(s, from, to) == s,
    decreases s.len(),
{
    if s.len() > 0 {
        if occurs_at(s, from, 0) {
            assert(s.subrange(0, 0int + from.len())[0] == from[0]);
            assert(s.contains(s[0]));
        }
        assert(forall|k: int| 0 <= k < s.skip(1).len() ==> s.skip(1)[k] == s[k + 1]);
        lemma_replaced_nothing(s.skip(1), from, to);
        assert(seq![s.first()] + s.skip(1) =~= s);
    }
}

// ---------------------------------------------------------------------------
// Laws of the plain text
// ---------------------------------------------------------------------------
/// Somewhere in `s` stands a complete tag: a `<`, a character that is no `>`, and a `>` later.
pub open spec fn holds_tag(s: Seq<char>) -> bool {
    exists|i: int, k: int| #[trigger] is_tag(s, i, k)
}

/// A complete tag runs from `i` to `k`, or ends before.
pub open spec fn is_tag(s: Seq<char>, i: int, k: int) -> bool {
    0 <= i && i + 1 < k < s.len() && s[i] == '<' && s[i + 1] != '>' && s[k] == '>'
}

/// A complete tag stands in `s` exactly where one ends that starts somewhere.
pub proof fn lemma_holds_tag(s: Seq<char>)
    ensures
        holds_tag(s) == (exists|i: int|
            0 <= i <= s.len() && (#[trigger] tag_end(s.skip(i))) is Some),
{
    if holds_tag(s) {
        let (i, k) = choose|i: int, k: int| #[trigger] is_tag(s, i, k);
        let t = s.skip(i);
        lemma_first_occurrence(t, seq!['>'], 2);
        assert(t[0] == '<' && t[1] != '>' && t[k - i] == '>');
        assert(t.subrange(k - i, k - i + 1) =~= seq!['>']);
        assert(occurs_at(t, seq!['>'], k - i));
        assert(tag_end(t) is Some);
    }
    if exists|i: int| 0 <= i <= s.len() && (#[trigger] tag_end(s.skip(i))) is Some {
        let i = choose|i: int| 0 <= i <= s.len() && (#[trigger] tag_end(s.skip(i))) is Some;
        let t = s.skip(i);
        lemma_first_occurrence(t, seq!['>'], 2);
        let k = tag_end(t)->0;
        assert(t.subrange(k, k + 1)[0] == '>');
        assert(is_tag(s, i, i + k));
    }
}

proof fn lemma_tag_skip(s: Seq<char>, n: int)
    requires
        0 <= n <= s.len(),
        holds_tag(s.skip(n)),
    ensures
        holds_tag(s),
{
    let (i, k) = choose|i: int, k: int| #[trigger] is_tag(s.skip(n), i, k);
    assert(is_tag(s, n + i, n + k));
}

proof fn lemma_thinned_from(s: Seq<char>)
    requires
        blank_lines_replaced(s, "\n\n"@).contains('>'),
    ensures
        s.contains('>'),
    decreases s.len(),
{
    reveal_strlit("\n\n");
    lemma_blank_lines_end(s);
    if s.len() > 0 {
        let (n, head) = match blank_lines_end(s) {
            Some(j) => (j, "\n\n"@),
            None => (1int, seq![s.first()]),
        };
        let rest = blank_lines_replaced(s.skip(n), "\n\n"@);
        let i = (head + rest).index_of('>');
        if i < head.len() {
            assert(s[0] == '>');
        } else {
            assert(rest[i - head.len()] == '>');
            lemma_thinned_from(s.skip(n));
            let k = s.skip(n).index_of('>');
            assert(s[n + k] == '>');
        }
    }
}

proof fn lemma_thinned_tag(s: Seq<char>)
    requires
        holds_tag(blank_lines_replaced(s, "\n\n"@)),
    ensures
        holds_tag(s),
    decreases s.len(),
{
    reveal_strlit("\n\n");
    lemma_blank_lines_end(s);
    let r = blank_lines_replaced(s, "\n\n"@);
    let (i, k) = choose|i: int, k: int| #[trigger] is_tag(r, i, k);
    if s.len() > 0 {
        match blank_lines_end(s) {
            Some(j) => {
                let rest = blank_lines_replaced(s.skip(j), "\n\n"@);
                assert(r =~= "\n\n"@ + rest);
                assert(i >= 2);
                assert(is_tag(rest, i - 2, k - 2));
                lemma_thinned_tag(s.skip(j));
                lemma_tag_skip(s, j);
            },
            None => {
                let tail = s.skip(1);
                let rest = blank_lines_replaced(tail, "\n\n"@);
                assert(r =~= seq![s.first()] + rest);
                if i > 0 {
                    assert(is_tag(rest, i - 1, k - 1));
                    lemma_thinned_tag(tail);
                    lemma_tag_skip(s, 1);
                } else {
                    assert(rest[k - 1] == '>');
                    lemma_thinned_from(tail);
                    let m = tail.index_of('>');
                    if m == 0 {
                        assert(blank_lines_end(tail) is None);
                        assert(rest[0] == tail[0]);
                    }
                    assert(is_tag(s, 0, m + 1));
                }
            },
        }
    }
}

proof fn lemma_elements_from(
    s: Seq<char>,
    open: Seq<char>,
    close: Seq<char>,
    c: char,
)
    requires
        elements_replaced(s, open, close, " "@).contains(c),
    ensures
        s.contains(c) || c == ' ',
    decreases s.len(),
{
    reveal_strlit(" ");
    if s.len() > 0 && open.len() > 0 {
        lemma_first_word(s, close, open.len() as int);
        let (n, first) = match (word_at(s, open, 0), first_word(s, close, open.len() as int)) {
            (true, Some(j)) => (j + close.len() as int, ' '),
            _ => (1int, s.first()),
        };
        let rest = elements_replaced(s.skip(n), open, close, " "@);
        let r = elements_replaced(s, open, close, " "@);
        assert(r =~= seq![first] + rest);
        let i = r.index_of(c);
        if i == 0 {
            assert(s[0] == s.first());
        } else {
            assert(rest[i - 1] == c);
            lemma_elements_from(s.skip(n), open, close, c);
            if s.skip(n).contains(c) {
                let k = s.skip(n).index_of(c);
                assert(s[n + k] == c);
            }
        }
    }
}

proof fn lemma_tags_from(s: Seq<char>, c: char)
    requires
        tags_replaced(s, " "@).contains(c),
    ensures
        s.contains(c) || c == ' ',
    decreases s.len(),
{
    reveal_strlit(" ");
    if s.len() > 0 {
        lemma_first_occurrence(s, seq!['>'], 2);
        let (n, first) = match tag_end(s) {
            Some(j) => (j + 1, ' '),
            None => (1int, s.first()),
        };
        let rest = tags_replaced(s.skip(n), " "@);
        let r = tags_replaced(s, " "@);
        assert(r =~= seq![first] + rest);
        let i = r.index_of(c);
        if i == 0 {
            assert(s[0] == s.first());
        } else {
            assert(rest[i - 1] == c);
            lemma_tags_from(s.skip(n), c);
            if s.skip(n).contains(c) {
                let k = s.skip(n).index_of(c);
                assert(s[n + k] == c);
            }
        }
    }
}

proof fn lemma_no_entity(s: Seq<char>)
    requires
        !s.contains('&'),
    ensures
        entities_decoded(s) == s,
{
    reveal_strlit("&amp;");
    reveal_strlit("&lt;");
    reveal_strlit("&gt;");
    reveal_strlit("&quot;");
    reveal_strlit("&#39;");
    reveal_strlit("&nbsp;");
    lemma_replaced_nothing(s, "&amp;"@, "&"@);
    lemma_replaced_nothing(s, "&lt;"@, "<"@);
    lemma_replaced_nothing(s, "&gt;"@, ">"@);
    lemma_replaced_nothing(s, "&quot;"@, "\""@);
    lemma_replaced_nothing(s, "&#39;"@, "'"@);
    lemma_replaced_nothing(s, "&nbsp;"@, " "@);
}

/// The plain text of a page without `&` holds no complete tag. (An entity can stand for a `<`.)
pub proof fn lemma_text_without_tags(html: Seq<char>)
    requires
        !html.contains('&'),
    ensures
        !holds_tag(page_text(html)),
{
    let no_scripts = elements_replaced(html, "<script"@, "</script>"@, " "@);
    let no_styles = elements_replaced(no_scripts, "<style"@, "</style>"@, " "@);
    let blanked = markup_blanked(html);
    if blanked.contains('&') {
        lemma_tags_from(no_styles, '&');
        lemma_elements_from(no_scripts, "<style"@, "</style>"@, '&');
        lemma_elements_from(html, "<script"@, "</script>"@, '&');
    }
    lemma_no_entity(blanked);
    let thinned = blank_lines_replaced(blanked, "\n\n"@);
    let text = page_text(html);
    lemma_trimmed(thinned);
    if holds_tag(text) {
        let (a, b) = choose|a: int, b: int|
            0 <= a <= b <= thinned.len() && text == #[trigger] thinned.subrange(a, b);
        let (i, k) = choose|i: int, k: int| #[trigger] is_tag(text, i, k);
        assert(is_tag(thinned, a + i, a + k));
        lemma_thinned_tag(blanked);
        lemma_holds_tag(blanked);
        let n = choose|n: int|
            0 <= n <= blanked.len() && (#[trigger] tag_end(blanked.skip(n))) is Some;
        lemma_markup_blanked(html, n);
    }
}

/// Three line feeds stand in a row from `i` on.
pub open spec fn three_line_feeds(s: Seq<char>, i: int) -> bool {
    0 <= i && i + 2 < s.len() && s[i] == '\n' && s[i + 1] == '\n' && s[i + 2] == '\n'
}

proof fn lemma_run_stops(s: Seq<char>, i: int, kind: spec_fn(char) -> bool)
    requires
        0 <= i,
    ensures
        run_end(s, i, kind) < s.len() ==> !kind(s[run_end(s, i, kind)]),
    decreases s.len() - i,
{
    if i < s.len() && kind(s[i]) {
        lemma_run_stops(s, i + 1, kind);
    }
}

proof fn lemma_run_skip(s: Seq<char>, i: int, kind: spec_fn(char) -> bool)
    requires
        0 <= i,
        s.len() > 0,
    ensures
        run_end(s, i + 1, kind) == run_end(s.skip(1), i, kind) + 1,
    decreases s.len() - i,
{
    if i < s.skip(1).len() && kind(s.skip(1)[i]) {
        lemma_run_skip(s, i + 1, kind);
    }
}

/// Blank lines behind a line feed belong to the same run.
proof fn lemma_blank_lines_start(s: Seq<char>)
    requires
        s.len() > 0,
        s[0] == '\n',
        blank_lines_end(s.skip(1)) is Some,
    ensures
        blank_lines_end(s) is Some,
{
    let blank = |c: char| c == ' ' || c == '\t';
    let t = s.skip(1);
    assert(t[0] == s[1]);
    assert(run_end(s, 1, blank) == 1);
    lemma_run_skip(s, 1, blank);
    lemma_run_end(t, 1, blank);
    let a = run_end(t, 1, blank);
    assert(t[a] == s[a + 1]);
}

proof fn lemma_thinned(s: Seq<char>, i: int)
    ensures
        ({
            let r = blank_lines_replaced(s, "\n\n"@);
            &&& !three_line_feeds(r, i)
            &&& r.len() > 0 && r[0] == '\n' ==> s.len() > 0 && s[0] == '\n'
            &&& r.len() > 1 && r[0] == '\n' && r[1] == '\n' && blank_lines_end(s) is None
                ==> s.len() > 1 && s[0] == '\n' && s[1] == '\n'
        }),
    decreases s.len(),
{
    reveal_strlit("\n\n");
    lemma_blank_lines_end(s);
    let r = blank_lines_replaced(s, "\n\n"@);
    if s.len() > 0 {
        match blank_lines_end(s) {
            Some(j) => {
                let rest = blank_lines_replaced(s.skip(j), "\n\n"@);
                assert(r =~= "\n\n"@ + rest);
                lemma_thinned(s.skip(j), i - 2);
                let blank = |c: char| c == ' ' || c == '\t';
                let a = run_end(s, 1, blank);
                let b = run_end(s, a + 1, blank);
                lemma_run_end(s, 1, blank);
                lemma_run_end(s, a + 1, blank);
                lemma_run_stops(s, b + 1, |c: char| c == '\n');
                if three_line_feeds(r, i) {
                    if i >= 2 {
                        assert(three_line_feeds(rest, i - 2));
                    } else {
                        assert(rest[0] == '\n');
                        assert(s.skip(j)[0] == s[j]);
                    }
                }
            },
            None => {
                let tail = s.skip(1);
                let rest = blank_lines_replaced(tail, "\n\n"@);
                assert(r =~= seq![s.first()] + rest);
                lemma_thinned(tail, i - 1);
                if three_line_feeds(r, i) {
                    if i >= 1 {
                        assert(three_line_feeds(rest, i - 1));
                    } else {
                        assert(rest[0] == '\n' && rest[1] == '\n');
                        if blank_lines_end(tail) is Some {
                            lemma_blank_lines_start(s);
                        } else {
                            let blank = |c: char| c == ' ' || c == '\t';
                            assert(tail[0] == s[1] && tail[1] == s[2]);
                            assert(run_end(s, 1, blank) == 1);
                            assert(run_end(s, 2, blank) == 2);
                        }
                    }
                }
                if r.len() > 1 && r[0] == '\n' && r[1] == '\n' {
                    assert(rest[0] == '\n');
                    assert(tail[0] == s[1]);
                }
            },
        }
    }
}

/// In the plain text of a page three line feeds never stand in a row.
pub proof fn lemma_line_feeds(html: Seq<char>, i: int)
    ensures
        !three_line_feeds(page_text(html), i),
{
    let decoded = entities_decoded(markup_blanked(html));
    let thinned = blank_lines_replaced(decoded, "\n\n"@);
    let text = page_text(html);
    lemma_trimmed(thinned);
    if three_line_feeds(text, i) {
        let (a, b) = choose|a: int, b: int|
            0 <= a <= b <= thinned.len() && text == #[trigger] thinned.subrange(a, b);
        assert(three_line_feeds(thinned, a + i));
        lemma_thinned(decoded, a + i);
    }
}

// ---------------------------------------------------------------------------
// Laws of the markup
// ---------------------------------------------------------------------------
proof fn lemma_elements_behind(
    x: Seq<char>,
    b: Seq<char>,
    open: Seq<char>,
    close: Seq<char>,
    by: Seq<char>,
)
    requires
        open.len() > 0,
        forall|i: int| 0 <= i < x.len() ==> !#[trigger] word_at(x + b, open, i),
    ensures
        elements_replaced(x + b, open, close, by) == x + elements_replaced(b, open, close, by),
    decreases x.len(),
{
    let s = x + b;
    if x.len() == 0 {
        assert(s =~= b);
        assert(x + elements_replaced(b, open, close, by) =~= elements_replaced(
            b,
            open,
            close,
            by,
        ));
    } else {
        assert(!word_at(s, open, 0));
        let rest = x.skip(1);
        assert(s.skip(1) =~= rest + b);
        assert forall|i: int| 0 <= i < rest.len() implies !#[trigger] word_at(
            rest + b,
            open,
            i,
        ) by {
            lemma_word_at_skip(s, open, 1, i);
            assert(!word_at(s, open, i + 1));
        }
        lemma_elements_behind(rest, b, open, close, by);
        assert(seq![s.first()] + (rest + elements_replaced(b, open, close, by)) =~= x
            + elements_replaced(b, open, close, by));
    }
}

proof fn lemma_tags_behind(x: Seq<char>, b: Seq<char>)
    requires
        !x.contains('<'),
    ensures
        tags_replaced(x + b, " "@) == x + tags_replaced(b, " "@),
    decreases x.len(),
{
    let s = x + b;
    if x.len() == 0 {
        assert(s =~= b);
        assert(x + tags_replaced(b, " "@) =~= tags_replaced(b, " "@));
    } else {
        assert(x.contains(x[0]));
        let rest = x.skip(1);
        assert(s.skip(1) =~= rest + b);
        assert(forall|k: int| 0 <= k < rest.len() ==> rest[k] == x[k + 1]);
        lemma_tags_behind(rest, b);
        assert(seq![s.first()] + (rest + tags_replaced(b, " "@)) =~= x + tags_replaced(b, " "@));
    }
}

/// Text before the first `<` stays as it is.
pub proof fn lemma_text_before_markup(text: Seq<char>, html: Seq<char>)
    requires
        !text.contains('<'),
    ensures
        markup_blanked(text + html) == text + markup_blanked(html),
{
    reveal_strlit("<script");
    reveal_strlit("<style");
    let no_scripts = elements_replaced(html, "<script"@, "</script>"@, " "@);
    lemma_no_word_in(text, html, "<script"@);
    lemma_elements_behind(text, html, "<script"@, "</script>"@, " "@);
    lemma_no_word_in(text, no_scripts, "<style"@);
    lemma_elements_behind(text, no_scripts, "<style"@, "</style>"@, " "@);
    lemma_tags_behind(text, elements_replaced(no_scripts, "<style"@, "</style>"@, " "@));
}

proof fn lemma_no_word_in(x: Seq<char>, b: Seq<char>, open: Seq<char>)
    requires
        open.len() > 0,
        open[0] == '<',
        !x.contains('<'),
    ensures
        forall|i: int| 0 <= i < x.len() ==> !#[trigger] word_at(x + b, open, i),
{
    assert forall|i: int| 0 <= i < x.len() implies !#[trigger] word_at(x + b, open, i) by {
        if word_at(x + b, open, i) {
            assert(is_in_any_case((x + b)[i + 0], open[0]));
            assert((x + b)[i] == x[i]);
            assert(x.contains(x[i]));
        }
    }
}

/// A tag with `inner` between its brackets.
pub open spec fn tag_of(inner: Seq<char>) -> Seq<char> {
    seq!['<'] + inner + seq!['>']
}

/// A tag becomes one space, unless it opens a script or a style.
pub proof fn lemma_tag_blanked(inner: Seq<char>, html: Seq<char>)
    requires
        inner.len() > 0,
        !inner.contains('<'),
        !inner.contains('>'),
        !word_at(tag_of(inner), "<script"@, 0),
        !word_at(tag_of(inner), "<style"@, 0),
    ensures
        markup_blanked(tag_of(inner) + html) == seq![' '] + markup_blanked(html),
{
    reveal_strlit("<script");
    reveal_strlit("<style");
    reveal_strlit(" ");
    let tag = tag_of(inner);
    let no_scripts = elements_replaced(html, "<script"@, "</script>"@, " "@);
    let no_styles = elements_replaced(no_scripts, "<style"@, "</style>"@, " "@);
    lemma_no_word_in_tag(inner, html, "<script"@);
    lemma_elements_behind(tag, html, "<script"@, "</script>"@, " "@);
    lemma_no_word_in_tag(inner, no_scripts, "<style"@);
    lemma_elements_behind(tag, no_scripts, "<style"@, "</style>"@, " "@);
    lemma_one_tag(inner, no_styles);
}

proof fn lemma_no_word_in_tag(inner: Seq<char>, b: Seq<char>, open: Seq<char>)
    requires
        open.len() > 0,
        open[0] == '<',
        forall|k: int| 0 <= k < open.len() ==> #[trigger] open[k] != '>',
        !inner.contains('<'),
        !word_at(tag_of(inner), open, 0),
    ensures
        forall|i: int|
            0 <= i < tag_of(inner).len() ==> !#[trigger] word_at(tag_of(inner) + b, open, i),
{
    let tag = tag_of(inner);
    let s = tag + b;
    assert forall|i: int| 0 <= i < tag.len() implies !#[trigger] word_at(s, open, i) by {
        if word_at(s, open, i) {
            assert(is_in_any_case(s[i + 0], open[0]));
            if i > 0 {
                if i < tag.len() - 1 {
                    assert(s[i] == inner[i - 1]);
                    assert(inner.contains(inner[i - 1]));
                }
            } else {
                let end = tag.len() - 1;
                if open.len() > end {
                    assert(is_in_any_case(s[0 + end], open[end]));
                    assert(s[end] == '>');
                }
                assert forall|k: int| 0 <= k < open.len() implies is_in_any_case(
                    #[trigger] tag[0 + k],
                    open[k],
                ) by {
                    assert(is_in_any_case(s[0 + k], open[k]));
                    assert(s[k] == tag[k]);
                }
            }
        }
    }
}

proof fn lemma_one_tag(inner: Seq<char>, b: Seq<char>)
    requires
        inner.len() > 0,
        !inner.contains('>'),
    ensures
        tags_replaced(tag_of(inner) + b, " "@) == seq![' '] + tags_replaced(b, " "@),
{
    reveal_strlit(" ");
    let s = tag_of(inner) + b;
    let end = inner.len() + 1int;
    lemma_end_of_tag(inner, b);
    assert(s.skip(end + 1) =~= b);
    assert(" "@ =~= seq![' ']);
}

proof fn lemma_end_of_tag(inner: Seq<char>, b: Seq<char>)
    requires
        inner.len() > 0,
        !inner.contains('>'),
    ensures
        tag_end(tag_of(inner) + b) == Some(inner.len() + 1int),
{
    let s = tag_of(inner) + b;
    let end = inner.len() + 1int;
    assert forall|k: int| 1 <= k < end implies s[k] != '>' by {
        assert(s[k] == inner[k - 1]);
        assert(inner.contains(inner[k - 1]));
    }
    assert(s[0] == '<' && s[end] == '>');
    lemma_first_end(s, 2, end);
}

proof fn lemma_first_end(s: Seq<char>, from: int, end: int)
    requires
        0 <= from <= end < s.len(),
        s[end] == '>',
        forall|k: int| from <= k < end ==> s[k] != '>',
    ensures
        first_occurrence(s, seq!['>'], from) == Some(end),
    decreases end - from,
{
    if from < end {
        assert(s.subrange(from, from + 1)[0] == s[from]);
        lemma_first_end(s, from + 1, end);
    } else {
        assert(s.subrange(end, end + 1) =~= seq!['>']);
    }
}

/// A script, from its opening to the first end of one, becomes one space with all that is in it.
pub proof fn lemma_script_blanked(
    opening: Seq<char>,
    inner: Seq<char>,
    end: Seq<char>,
    html: Seq<char>,
)
    requires
        opening.len() == 7,
        word_at(opening, "<script"@, 0),
        end.len() == 9,
        word_at(end, "</script>"@, 0),
        forall|i: int| 0 <= i < inner.len() ==> !#[trigger] word_at(
            inner + end + html,
            "</script>"@,
            i,
        ),
    ensures
        markup_blanked(opening + (inner + end + html)) == seq![' '] + markup_blanked(html),
{
    reveal_strlit("<script");
    reveal_strlit("</script>");
    reveal_strlit("<style");
    reveal_strlit(" ");
    let open = "<script"@;
    let close = "</script>"@;
    lemma_one_element(opening, inner, end, html, open, close);
    let no_scripts = elements_replaced(html, open, close, " "@);
    assert(" "@ =~= seq![' ']);
    let x = seq![' '];
    lemma_no_word_in(x, no_scripts, "<style"@);
    lemma_elements_behind(x, no_scripts, "<style"@, "</style>"@, " "@);
    lemma_tags_behind(x, elements_replaced(no_scripts, "<style"@, "</style>"@, " "@));
}

proof fn lemma_one_element(
    opening: Seq<char>,
    inner: Seq<char>,
    end: Seq<char>,
    html: Seq<char>,
    open: Seq<char>,
    close: Seq<char>,
)
    requires
        open.len() > 0,
        opening.len() == open.len(),
        word_at(opening, open, 0),
        end.len() == close.len(),
        word_at(end, close, 0),
        forall|i: int| 0 <= i < inner.len() ==> !#[trigger] word_at(inner + end + html, close, i),
    ensures
        elements_replaced(opening + (inner + end + html), open, close, " "@) == " "@
            + elements_replaced(html, open, close, " "@),
{
    let tail = inner + end + html;
    let s = opening + tail;
    let n = open.len() as int;
    assert(word_at(s, open, 0)) by {
        assert forall|k: int| 0 <= k < n implies is_in_any_case(#[trigger] s[0 + k], open[k]) by {
            assert(is_in_any_case(opening[0 + k], open[k]));
            assert(s[k] == opening[k]);
        }
    }
    let at = n + inner.len();
    assert(word_at(s, close, at)) by {
        assert forall|k: int| 0 <= k < close.len() implies is_in_any_case(
            #[trigger] s[at + k],
            close[k],
        ) by {
            assert(is_in_any_case(end[0 + k], close[k]));
            assert(s[at + k] == end[k]);
        }
    }
    lemma_first_word(s, close, n);
    let j = first_word(s, close, n)->0;
    if j < at {
        assert(s.skip(n) =~= tail);
        lemma_word_at_skip(s, close, n, j - n);
        assert(!word_at(tail, close, j - n));
    }
    assert(j == at);
    assert(s.skip(j + close.len()) =~= html);
}

/// A style becomes one space with all that is in it, as long as no `<` is in it.
pub proof fn lemma_style_blanked(
    opening: Seq<char>,
    inner: Seq<char>,
    end: Seq<char>,
    html: Seq<char>,
)
    requires
        opening.len() == 6,
        word_at(opening, "<style"@, 0),
        end.len() == 8,
        word_at(end, "</style>"@, 0),
        !inner.contains('<'),
    ensures
        markup_blanked(opening + (inner + end + html)) == seq![' '] + markup_blanked(html),
{
    reveal_strlit("<script");
    reveal_strlit("</style>");
    reveal_strlit("<style");
    reveal_strlit(" ");
    let open = "<style"@;
    let close = "</style>"@;
    let no_scripts = elements_replaced(html, "<script"@, "</script>"@, " "@);
    let x = opening + inner + end;
    assert(opening + (inner + end + html) =~= x + html);
    assert(opening + (inner + end + no_scripts) =~= x + no_scripts);
    lemma_style_holds_no_script(opening, inner, end, html);
    lemma_elements_behind(x, html, "<script"@, "</script>"@, " "@);
    assert forall|i: int| 0 <= i < inner.len() implies !#[trigger] word_at(
        inner + end + no_scripts,
        close,
        i,
    ) by {
        let t = inner + end + no_scripts;
        if word_at(t, close, i) {
            assert(is_in_any_case(t[i + 0], close[0]));
            assert(t[i] == inner[i]);
            assert(inner.contains(inner[i]));
        }
    }
    lemma_one_element(opening, inner, end, no_scripts, open, close);
    assert(" "@ =~= seq![' ']);
    lemma_tags_behind(seq![' '], elements_replaced(no_scripts, open, close, " "@));
}

proof fn lemma_style_holds_no_script(
    opening: Seq<char>,
    inner: Seq<char>,
    end: Seq<char>,
    html: Seq<char>,
)
    requires
        opening.len() == 6,
        word_at(opening, "<style"@, 0),
        end.len() == 8,
        word_at(end, "</style>"@, 0),
        !inner.contains('<'),
    ensures
        forall|i: int|
            0 <= i < (opening + inner + end).len() ==> !#[trigger] word_at(
                opening + inner + end + html,
                "<script"@,
                i,
            ),
{
    reveal_strlit("<script");
    reveal_strlit("</style>");
    reveal_strlit("<style");
    let x = opening + inner + end;
    let s = x + html;
    let m = 6 + inner.len() as int;
    assert forall|i: int| 0 <= i < x.len() implies !#[trigger] word_at(s, "<script"@, i) by {
        if word_at(s, "<script"@, i) {
            assert(is_in_any_case(s[i + 0], '<'));
            assert(is_in_any_case(s[i + 2], 'c'));
            if i < 6 {
                assert(s[i] == opening[i]);
                assert(is_in_any_case(opening[0 + i], "<style"@[i]));
                if i == 0 {
                    assert(is_in_any_case(opening[0int + 2], "<style"@[2]));
                    assert(s[2] == opening[2]);
                }
            } else if i < m {
                assert(s[i] == inner[i - 6]);
                assert(inner.contains(inner[i - 6]));
            } else {
                assert(s[i] == end[i - m]);
                assert(is_in_any_case(end[0 + (i - m)], "</style>"@[i - m]));
                if i == m {
                    assert(is_in_any_case(end[0int + 2], "</style>"@[2]));
                    assert(s[m + 2] == end[2]);
                }
            }
        }
    }
}

/// A page whose markup is blanked has no markup: blanking it again changes nothing.
pub proof fn lemma_blanked_twice(html: Seq<char>)
    ensures
        markup_blanked(markup_blanked(html)) == markup_blanked(html),
{
    let s = markup_blanked(html);
    assert forall|i: int| 0 <= i <= s.len() implies (#[trigger] tag_end(s.skip(i))) is None by {
        lemma_markup_blanked(html, i);
    }
    lemma_holds_tag(s);
    lemma_no_element_without_tag(s, "<script"@, "</script>"@);
    lemma_no_element_without_tag(s, "<style"@, "</style>"@);
    lemma_tags_absent(s);
}

proof fn lemma_tags_absent(s: Seq<char>)
    requires
        !holds_tag(s),
    ensures
        tags_replaced(s, " "@) == s,
    decreases s.len(),
{
    if s.len() > 0 {
        lemma_holds_tag(s);
        assert(s.skip(0) =~= s);
        assert(tag_end(s.skip(0)) is None);
        if holds_tag(s.skip(1)) {
            lemma_tag_skip(s, 1);
        }
        lemma_tags_absent(s.skip(1));
        assert(seq![s.first()] + s.skip(1) =~= s);
    }
}

proof fn lemma_no_element_without_tag(s: Seq<char>, open: Seq<char>, close: Seq<char>)
    requires
        !holds_tag(s),
        (open == "<script"@ && close == "</script>"@) || (open == "<style"@ && close
            == "</style>"@),
    ensures
        elements_replaced(s, open, close, " "@) == s,
    decreases s.len(),
{
    reveal_strlit("<script");
    reveal_strlit("</script>");
    reveal_strlit("<style");
    reveal_strlit("</style>");
    if s.len() > 0 {
        let n = open.len() as int;
        lemma_first_word(s, close, n);
        if word_at(s, open, 0) && first_word(s, close, n) is Some {
            let j = first_word(s, close, n)->0;
            let last = close.len() - 1;
            assert(is_in_any_case(s[0int + 0], open[0]));
            assert(is_in_any_case(s[0int + 1], open[1]));
            assert(is_in_any_case(s[j + last], close[last]));
            assert(is_tag(s, 0, j + last));
        }
        if holds_tag(s.skip(1)) {
            lemma_tag_skip(s, 1);
        }
        lemma_no_element_without_tag(s.skip(1), open, close);
        assert(seq![s.first()] + s.skip(1) =~= s);
    }
}

/// The plain text of a page depends on the page with its markup blanked alone.
pub proof fn lemma_text_of_blanked(html: Seq<char>, other: Seq<char>)
    ensures
        page_text(html) == page_text(markup_blanked(html)),
        markup_blanked(html) == markup_blanked(other) ==> page_text(html) == page_text(other),
{
    lemma_blanked_twice(html);
}

// ---------------------------------------------------------------------------
// Laws of the entities
// ---------------------------------------------------------------------------
/// An entity and the character that it stands for; an ampersand has its own laws.
pub open spec fn is_entity(entity: Seq<char>, c: char) -> bool {
    ||| entity == "&lt;"@ && c == '<'
    ||| entity == "&gt;"@ && c == '>'
    ||| entity == "&quot;"@ && c == '"'
    ||| entity == "&#39;"@ && c == '\''
    ||| entity == "&nbsp;"@ && c == ' '
}

/// The form of an entity: it starts with an ampersand, ends with a semicolon, and has neither in
/// between, nor a character that an entity can stand for.
spec fn is_formed(e: Seq<char>) -> bool {
    &&& e.len() >= 4
    &&& e[0] == '&'
    &&& e[e.len() - 1] == ';'
    &&& forall|k: int| 1 <= k < e.len() ==> #[trigger] e[k] != '&'
    &&& forall|k: int| 0 <= k < e.len() - 1 ==> #[trigger] e[k] != ';'
    &&& forall|k: int|
        0 <= k < e.len() ==> #[trigger] e[k] != '<' && e[k] != '>' && e[k] != '"' && e[k] != '\''
            && e[k] != ' ' && e[k] != '\n' && e[k] != '\t'
}

proof fn lemma_formed()
    ensures
        is_formed("&amp;"@),
        is_formed("&lt;"@),
        is_formed("&gt;"@),
        is_formed("&quot;"@),
        is_formed("&#39;"@),
        is_formed("&nbsp;"@),
        "&amp;"@[1] == 'a',
        "&lt;"@[1] == 'l',
        "&gt;"@[1] == 'g',
        "&quot;"@[1] == 'q',
        "&#39;"@[1] == '#',
        "&nbsp;"@[1] == 'n',
        "&amp;"@ == seq!['&', 'a', 'm', 'p', ';'],
{
    reveal_strlit("&amp;");
    reveal_strlit("&lt;");
    reveal_strlit("&gt;");
    reveal_strlit("&quot;");
    reveal_strlit("&#39;");
    reveal_strlit("&nbsp;");
    assert("&amp;"@ =~= seq!['&', 'a', 'm', 'p', ';']);
}

/// What is to be replaced does not run into an entity, nor out of it.
proof fn lemma_entity_apart(
    p: Seq<char>,
    e: Seq<char>,
    q: Seq<char>,
    from: Seq<char>,
    to: Seq<char>,
)
    requires
        is_formed(e),
        is_formed(from),
    ensures
        replaced(p + e + q, from, to) == replaced(p, from, to) + replaced(e, from, to) + replaced(
            q,
            from,
            to,
        ),
{
    let tail = e + q;
    assert(p + e + q =~= p + tail);
    assert forall|i: int| 0 <= i < p.len() < i + from.len() implies !#[trigger] occurs_at(
        p + tail,
        from,
        i,
    ) by {
        if occurs_at(p + tail, from, i) {
            let k = p.len() - i;
            assert((p + tail).subrange(i, i + from.len())[k] == from[k]);
            assert((p + tail)[p.len() as int] == e[0]);
        }
    }
    lemma_replaced_parts(p, tail, from, to);
    assert forall|i: int| 0 <= i < e.len() < i + from.len() implies !#[trigger] occurs_at(
        e + q,
        from,
        i,
    ) by {
        if occurs_at(e + q, from, i) {
            assert((e + q).subrange(i, i + from.len())[0] == from[0]);
            assert((e + q)[i] == e[i]);
            assert(i == 0);
            let k = e.len() - 1;
            assert((e + q).subrange(i, i + from.len())[k] == from[k]);
            assert((e + q)[k] == ';');
        }
    }
    lemma_replaced_parts(e, q, from, to);
    assert(replaced(p, from, to) + (replaced(e, from, to) + replaced(q, from, to)) =~= replaced(
        p,
        from,
        to,
    ) + replaced(e, from, to) + replaced(q, from, to));
}

/// What is to be replaced does not run over a character that it does not hold.
proof fn lemma_char_apart(p: Seq<char>, c: char, q: Seq<char>, from: Seq<char>, to: Seq<char>)
    requires
        from.len() > 1,
        forall|k: int| 0 <= k < from.len() ==> #[trigger] from[k] != c,
    ensures
        replaced(p + seq![c] + q, from, to) == replaced(p, from, to) + seq![c] + replaced(
            q,
            from,
            to,
        ),
{
    let tail = seq![c] + q;
    assert(p + seq![c] + q =~= p + tail);
    assert forall|i: int| 0 <= i < p.len() < i + from.len() implies !#[trigger] occurs_at(
        p + tail,
        from,
        i,
    ) by {
        if occurs_at(p + tail, from, i) {
            let k = p.len() - i;
            assert((p + tail).subrange(i, i + from.len())[k] == from[k]);
            assert((p + tail)[p.len() as int] == c);
        }
    }
    lemma_replaced_parts(p, tail, from, to);
    assert forall|i: int| 0 <= i < seq![c].len() < i + from.len() implies !#[trigger] occurs_at(
        seq![c] + q,
        from,
        i,
    ) by {
        if occurs_at(seq![c] + q, from, i) {
            assert((seq![c] + q).subrange(i, i + from.len())[0] == from[0]);
        }
    }
    lemma_replaced_parts(seq![c], q, from, to);
    assert(!occurs(seq![c], from));
    lemma_replaced_absent(seq![c], from, to);
    assert(replaced(p, from, to) + (seq![c] + replaced(q, from, to)) =~= replaced(p, from, to)
        + seq![c] + replaced(q, from, to));
}

proof fn lemma_step_over_entity(
    p: Seq<char>,
    e: Seq<char>,
    q: Seq<char>,
    from: Seq<char>,
    to: Seq<char>,
)
    requires
        is_formed(e),
        is_formed(from),
        e[1] != from[1],
    ensures
        replaced(p + e + q, from, to) == replaced(p, from, to) + e + replaced(q, from, to),
{
    lemma_entity_apart(p, e, q, from, to);
    if occurs(e, from) {
        let i = choose|i: int| occurs_at(e, from, i);
        assert(e.subrange(i, i + from.len())[0] == from[0]);
        assert(e[i] == '&');
        assert(i == 0);
        assert(e.subrange(i, i + from.len())[1] == from[1]);
    }
    lemma_replaced_absent(e, from, to);
}

/// An entity becomes the character that it stands for, wherever it stands and whatever stands
/// around it; what stands around it is decoded for itself.
pub proof fn lemma_entity_decoded(p: Seq<char>, entity: Seq<char>, c: char, q: Seq<char>)
    requires
        is_entity(entity, c),
    ensures
        entities_decoded(p + entity + q) == entities_decoded(p) + seq![c] + entities_decoded(q),
{
    lemma_formed();
    let amp = "&amp;"@;
    lemma_step_over_entity(p, entity, q, amp, "&"@);
    let p1 = replaced(p, amp, "&"@);
    let q1 = replaced(q, amp, "&"@);
    lemma_decoded_step(p1, entity, c, q1, "&lt;"@, "<"@, '<');
    let p2 = replaced(p1, "&lt;"@, "<"@);
    let q2 = replaced(q1, "&lt;"@, "<"@);
    lemma_decoded_step(p2, entity, c, q2, "&gt;"@, ">"@, '>');
    let p3 = replaced(p2, "&gt;"@, ">"@);
    let q3 = replaced(q2, "&gt;"@, ">"@);
    lemma_decoded_step(p3, entity, c, q3, "&quot;"@, "\""@, '"');
    let p4 = replaced(p3, "&quot;"@, "\""@);
    let q4 = replaced(q3, "&quot;"@, "\""@);
    lemma_decoded_step(p4, entity, c, q4, "&#39;"@, "'"@, '\'');
    let p5 = replaced(p4, "&#39;"@, "'"@);
    let q5 = replaced(q4, "&#39;"@, "'"@);
    lemma_decoded_step(p5, entity, c, q5, "&nbsp;"@, " "@, ' ');
    reveal_strlit("<");
    reveal_strlit(">");
    reveal_strlit("\"");
    reveal_strlit("'");
    reveal_strlit(" ");
    assert("<"@ =~= seq!['<']);
    assert(">"@ =~= seq!['>']);
    assert("\""@ =~= seq!['"']);
    assert("'"@ =~= seq!['\'']);
    assert(" "@ =~= seq![' ']);
}

/// One step of the decoding: the entity of the step is replaced, another one is passed over, and
/// so is a character that stands in for one.
proof fn lemma_decoded_step(
    p: Seq<char>,
    entity: Seq<char>,
    c: char,
    q: Seq<char>,
    from: Seq<char>,
    to: Seq<char>,
    d: char,
)
    requires
        is_entity(entity, c),
        is_entity(from, d),
    ensures
        entity == from ==> replaced(p + entity + q, from, to) == replaced(p, from, to) + to
            + replaced(q, from, to),
        entity != from ==> replaced(p + entity + q, from, to) == replaced(p, from, to) + entity
            + replaced(q, from, to),
        replaced(p + seq![c] + q, from, to) == replaced(p, from, to) + seq![c] + replaced(
            q,
            from,
            to,
        ),
{
    lemma_formed();
    if entity == from {
        lemma_entity_apart(p, entity, q, from, to);
        lemma_replaced_one(from, to);
    } else {
        lemma_step_over_entity(p, entity, q, from, to);
    }
    lemma_char_apart(p, c, q, from, to);
}

/// A text without an ampersand has nothing to decode.
pub proof fn lemma_nothing_to_decode(s: Seq<char>)
    requires
        !s.contains('&'),
    ensures
        entities_decoded(s) == s,
{
    lemma_no_entity(s);
}

/// An ampersand that is written as an entity becomes one, and takes no part in another entity
/// where what follows cannot be one.
pub proof fn lemma_ampersand_decoded(p: Seq<char>, q: Seq<char>)
    requires
        q.len() > 0 ==> q[0] != 'l' && q[0] != 'g' && q[0] != 'q' && q[0] != '#' && q[0] != 'n',
    ensures
        entities_decoded(p + "&amp;"@ + q) == entities_decoded(p) + seq!['&'] + entities_decoded(q),
{
    lemma_formed();
    let amp = "&amp;"@;
    reveal_strlit("&");
    assert("&"@ =~= seq!['&']);
    lemma_entity_apart(p, amp, q, amp, "&"@);
    lemma_replaced_one(amp, "&"@);
    let p1 = replaced(p, amp, "&"@);
    let q1 = replaced(q, amp, "&"@);
    lemma_start_of_replaced(q, amp, "&"@);
    lemma_lone_ampersand(p1, q1, "&lt;"@, "<"@);
    let p2 = replaced(p1, "&lt;"@, "<"@);
    let q2 = replaced(q1, "&lt;"@, "<"@);
    reveal_strlit("<");
    reveal_strlit(">");
    reveal_strlit("\"");
    reveal_strlit("'");
    lemma_start_of_replaced(q1, "&lt;"@, "<"@);
    lemma_lone_ampersand(p2, q2, "&gt;"@, ">"@);
    let p3 = replaced(p2, "&gt;"@, ">"@);
    let q3 = replaced(q2, "&gt;"@, ">"@);
    lemma_start_of_replaced(q2, "&gt;"@, ">"@);
    lemma_lone_ampersand(p3, q3, "&quot;"@, "\""@);
    let p4 = replaced(p3, "&quot;"@, "\""@);
    let q4 = replaced(q3, "&quot;"@, "\""@);
    lemma_start_of_replaced(q3, "&quot;"@, "\""@);
    lemma_lone_ampersand(p4, q4, "&#39;"@, "'"@);
    let p5 = replaced(p4, "&#39;"@, "'"@);
    let q5 = replaced(q4, "&#39;"@, "'"@);
    lemma_start_of_replaced(q4, "&#39;"@, "'"@);
    lemma_lone_ampersand(p5, q5, "&nbsp;"@, " "@);
}

/// A text that is replaced starts as it did, or with what is put in.
proof fn lemma_start_of_replaced(s: Seq<char>, from: Seq<char>, to: Seq<char>)
    requires
        from.len() > 0,
        to.len() > 0,
    ensures
        replaced(s, from, to).len() > 0 ==> s.len() > 0 && (replaced(s, from, to)[0] == s[0]
            || replaced(s, from, to)[0] == to[0]),
{
}

proof fn lemma_lone_ampersand(p: Seq<char>, q: Seq<char>, from: Seq<char>, to: Seq<char>)
    requires
        is_formed(from),
        q.len() > 0 ==> q[0] != from[1],
    ensures
        replaced(p + seq!['&'] + q, from, to) == replaced(p, from, to) + seq!['&'] + replaced(
            q,
            from,
            to,
        ),
{
    let tail = seq!['&'] + q;
    assert(p + seq!['&'] + q =~= p + tail);
    assert forall|i: int| 0 <= i < p.len() < i + from.len() implies !#[trigger] occurs_at(
        p + tail,
        from,
        i,
    ) by {
        if occurs_at(p + tail, from, i) {
            let k = p.len() - i;
            assert((p + tail).subrange(i, i + from.len())[k] == from[k]);
            assert((p + tail)[p.len() as int] == '&');
        }
    }
    lemma_replaced_parts(p, tail, from, to);
    assert forall|i: int| 0 <= i < seq!['&'].len() < i + from.len() implies !#[trigger] occurs_at(
        seq!['&'] + q,
        from,
        i,
    ) by {
        if occurs_at(seq!['&'] + q, from, i) {
            assert((seq!['&'] + q).subrange(i, i + from.len())[1] == from[1]);
            assert((seq!['&'] + q)[1] == q[0]);
        }
    }
    lemma_replaced_parts(seq!['&'], q, from, to);
    assert(!occurs(seq!['&'], from));
    lemma_replaced_absent(seq!['&'], from, to);
    assert(replaced(p, from, to) + (seq!['&'] + replaced(q, from, to)) =~= replaced(p, from, to)
        + seq!['&'] + replaced(q, from, to));
}

/// What is replaced by one character leaves the text before that character as it was.
proof fn lemma_replaced_prefix(t: Seq<char>, from: Seq<char>, c: char, n: int)
    requires
        from.len() > 0,
        0 <= n <= replaced(t, from, seq![c]).len(),
        forall|k: int| 0 <= k < n ==> replaced(t, from, seq![c])[k] != c,
    ensures
        n <= t.len(),
        t.take(n) == replaced(t, from, seq![c]).take(n),
    decreases t.len(),
{
    let r = replaced(t, from, seq![c]);
    if n > 0 {
        assert(t.len() > 0);
        if occurs_at(t, from, 0) {
            assert(r[0] == c);
        }
        let rest = replaced(t.skip(1), from, seq![c]);
        assert(r =~= seq![t.first()] + rest);
        assert forall|k: int| 0 <= k < n - 1 implies rest[k] != c by {
            assert(rest[k] == r[k + 1]);
        }
        lemma_replaced_prefix(t.skip(1), from, c, n - 1);
        assert forall|k: int| 0 <= k < n implies t[k] == r[k] by {
            if k > 0 {
                assert(t.skip(1).take(n - 1)[k - 1] == rest.take(n - 1)[k - 1]);
            }
        }
        assert(t.take(n) =~= r.take(n));
    } else {
        assert(t.take(n) =~= r.take(n));
    }
}

proof fn lemma_occurs_skip(s: Seq<char>, e: Seq<char>, n: int)
    requires
        0 <= n <= s.len(),
        occurs(s.skip(n), e),
    ensures
        occurs(s, e),
{
    let i = choose|i: int| occurs_at(s.skip(n), e, i);
    assert(s.skip(n).subrange(i, i + e.len()) =~= s.subrange(n + i, n + i + e.len()));
    assert(occurs_at(s, e, n + i));
}

/// Replacing by a character that is not part of `e` makes no `e`, and leaves none of what is
/// replaced.
proof fn lemma_none_made(s: Seq<char>, e: Seq<char>, from: Seq<char>, c: char)
    requires
        from.len() > 0,
        e.len() > 0,
        forall|k: int| 0 <= k < e.len() ==> #[trigger] e[k] != c,
        !occurs(s, e) || e == from,
    ensures
        !occurs(replaced(s, from, seq![c]), e),
    decreases s.len(),
{
    let r = replaced(s, from, seq![c]);
    if occurs(r, e) {
        let i = choose|i: int| occurs_at(r, e, i);
        assert(s.len() > 0);
        let n = if occurs_at(s, from, 0) {
            from.len() as int
        } else {
            1int
        };
        let head = if occurs_at(s, from, 0) {
            c
        } else {
            s.first()
        };
        let rest = replaced(s.skip(n), from, seq![c]);
        assert(r =~= seq![head] + rest);
        if occurs(s.skip(n), e) {
            lemma_occurs_skip(s, e, n);
        }
        lemma_none_made(s.skip(n), e, from, c);
        if i > 0 {
            assert(rest.subrange(i - 1, i - 1 + e.len()) =~= r.subrange(i, i + e.len()));
            assert(occurs_at(rest, e, i - 1));
        } else {
            assert forall|k: int| 0 <= k < e.len() implies r[k] != c by {
                assert(r.subrange(0, e.len() as int)[k] == e[k]);
            }
            lemma_replaced_prefix(s, from, c, e.len() as int);
            assert(s.subrange(0, e.len() as int) =~= s.take(e.len() as int));
            assert(r.subrange(0, e.len() as int) =~= r.take(e.len() as int));
            assert(occurs_at(s, e, 0));
            assert(r[0] == e[0]);
            assert(r[0] == head);
            assert(e == from);
            assert(occurs_at(s, from, 0));
            assert(false);
        }
    }
}

proof fn lemma_none_made_by_elements(s: Seq<char>, open: Seq<char>, close: Seq<char>, e: Seq<char>)
    requires
        open.len() > 0,
        e.len() > 0,
        forall|k: int| 0 <= k < e.len() ==> #[trigger] e[k] != ' ',
        !occurs(s, e),
    ensures
        !occurs(elements_replaced(s, open, close, " "@), e),
    decreases s.len(),
{
    reveal_strlit(" ");
    let r = elements_replaced(s, open, close, " "@);
    if occurs(r, e) {
        let i = choose|i: int| occurs_at(r, e, i);
        assert(s.len() > 0);
        lemma_first_word(s, close, open.len() as int);
        let (n, head) = match (word_at(s, open, 0), first_word(s, close, open.len() as int)) {
            (true, Some(j)) => (j + close.len() as int, ' '),
            _ => (1int, s.first()),
        };
        let rest = elements_replaced(s.skip(n), open, close, " "@);
        assert(r =~= seq![head] + rest);
        if occurs(s.skip(n), e) {
            lemma_occurs_skip(s, e, n);
        }
        lemma_none_made_by_elements(s.skip(n), open, close, e);
        if i > 0 {
            assert(rest.subrange(i - 1, i - 1 + e.len()) =~= r.subrange(i, i + e.len()));
            assert(occurs_at(rest, e, i - 1));
        } else {
            let m = e.len() as int;
            assert forall|k: int| 0 <= k < m implies r[k] != ' ' by {
                assert(r.subrange(0, m)[k] == e[k]);
            }
            lemma_elements_prefix(s, open, close, m);
            assert(s.subrange(0, m) =~= r.subrange(0, m));
            assert(occurs_at(s, e, 0));
        }
    }
}

proof fn lemma_tags_prefix(s: Seq<char>, n: int)
    requires
        0 <= n <= tags_replaced(s, " "@).len(),
        forall|k: int| 0 <= k < n ==> tags_replaced(s, " "@)[k] != ' ',
    ensures
        n <= s.len(),
        s.take(n) == tags_replaced(s, " "@).take(n),
    decreases s.len(),
{
    reveal_strlit(" ");
    let r = tags_replaced(s, " "@);
    if n > 0 {
        assert(s.len() > 0);
        if tag_end(s) is Some {
            assert(r[0] == ' ');
        }
        let rest = tags_replaced(s.skip(1), " "@);
        assert(r =~= seq![s.first()] + rest);
        assert forall|k: int| 0 <= k < n - 1 implies rest[k] != ' ' by {
            assert(rest[k] == r[k + 1]);
        }
        lemma_tags_prefix(s.skip(1), n - 1);
        assert forall|k: int| 0 <= k < n implies s[k] == r[k] by {
            if k > 0 {
                assert(s.skip(1).take(n - 1)[k - 1] == rest.take(n - 1)[k - 1]);
            }
        }
    }
    assert(s.take(n) =~= r.take(n));
}

proof fn lemma_none_made_by_tags(s: Seq<char>, e: Seq<char>)
    requires
        e.len() > 0,
        forall|k: int| 0 <= k < e.len() ==> #[trigger] e[k] != ' ',
        !occurs(s, e),
    ensures
        !occurs(tags_replaced(s, " "@), e),
    decreases s.len(),
{
    reveal_strlit(" ");
    let r = tags_replaced(s, " "@);
    if occurs(r, e) {
        let i = choose|i: int| occurs_at(r, e, i);
        assert(s.len() > 0);
        lemma_first_occurrence(s, seq!['>'], 2);
        let (n, head) = match tag_end(s) {
            Some(j) => (j + 1, ' '),
            None => (1int, s.first()),
        };
        let rest = tags_replaced(s.skip(n), " "@);
        assert(r =~= seq![head] + rest);
        if occurs(s.skip(n), e) {
            lemma_occurs_skip(s, e, n);
        }
        lemma_none_made_by_tags(s.skip(n), e);
        if i > 0 {
            assert(rest.subrange(i - 1, i - 1 + e.len()) =~= r.subrange(i, i + e.len()));
            assert(occurs_at(rest, e, i - 1));
        } else {
            let m = e.len() as int;
            assert forall|k: int| 0 <= k < m implies r[k] != ' ' by {
                assert(r.subrange(0, m)[k] == e[k]);
            }
            lemma_tags_prefix(s, m);
            assert(s.subrange(0, m) =~= s.take(m));
            assert(r.subrange(0, m) =~= r.take(m));
            assert(occurs_at(s, e, 0));
        }
    }
}

proof fn lemma_thinned_prefix(s: Seq<char>, n: int)
    requires
        0 <= n <= blank_lines_replaced(s, "\n\n"@).len(),
        forall|k: int| 0 <= k < n ==> blank_lines_replaced(s, "\n\n"@)[k] != '\n',
    ensures
        n <= s.len(),
        s.take(n) == blank_lines_replaced(s, "\n\n"@).take(n),
    decreases s.len(),
{
    reveal_strlit("\n\n");
    let r = blank_lines_replaced(s, "\n\n"@);
    if n > 0 {
        assert(s.len() > 0);
        if blank_lines_end(s) is Some {
            assert(r[0] == '\n');
        }
        let rest = blank_lines_replaced(s.skip(1), "\n\n"@);
        assert(r =~= seq![s.first()] + rest);
        assert forall|k: int| 0 <= k < n - 1 implies rest[k] != '\n' by {
            assert(rest[k] == r[k + 1]);
        }
        lemma_thinned_prefix(s.skip(1), n - 1);
        assert forall|k: int| 0 <= k < n implies s[k] == r[k] by {
            if k > 0 {
                assert(s.skip(1).take(n - 1)[k - 1] == rest.take(n - 1)[k - 1]);
            }
        }
    }
    assert(s.take(n) =~= r.take(n));
}

proof fn lemma_none_made_by_thinning(s: Seq<char>, e: Seq<char>)
    requires
        e.len() > 0,
        forall|k: int| 0 <= k < e.len() ==> #[trigger] e[k] != '\n',
        !occurs(s, e),
    ensures
        !occurs(blank_lines_replaced(s, "\n\n"@), e),
    decreases s.len(),
{
    reveal_strlit("\n\n");
    let r = blank_lines_replaced(s, "\n\n"@);
    if occurs(r, e) {
        let i = choose|i: int| occurs_at(r, e, i);
        assert(s.len() > 0);
        lemma_blank_lines_end(s);
        let (n, head) = match blank_lines_end(s) {
            Some(j) => (j, "\n\n"@),
            None => (1int, seq![s.first()]),
        };
        let h = head.len() as int;
        let rest = blank_lines_replaced(s.skip(n), "\n\n"@);
        assert(r =~= head + rest);
        if occurs(s.skip(n), e) {
            lemma_occurs_skip(s, e, n);
        }
        lemma_none_made_by_thinning(s.skip(n), e);
        if i >= h {
            assert(rest.subrange(i - h, i - h + e.len()) =~= r.subrange(i, i + e.len()));
            assert(occurs_at(rest, e, i - h));
        } else if blank_lines_end(s) is Some {
            assert(r.subrange(i, i + e.len())[0] == e[0]);
            assert(r[i] == '\n');
        } else {
            let m = e.len() as int;
            assert forall|k: int| 0 <= k < m implies r[k] != '\n' by {
                assert(r.subrange(0, m)[k] == e[k]);
            }
            lemma_thinned_prefix(s, m);
            assert(s.subrange(0, m) =~= s.take(m));
            assert(r.subrange(0, m) =~= r.take(m));
            assert(occurs_at(s, e, 0));
        }
    }
}

/// Every entity of a page is decoded, whatever markup the page has: none is left in its plain text,
/// unless an ampersand of the page was itself written as an entity.
pub proof fn lemma_no_entity_left(html: Seq<char>, entity: Seq<char>, c: char)
    requires
        is_entity(entity, c),
        !occurs(html, "&amp;"@),
    ensures
        !occurs(page_text(html), entity),
{
    lemma_formed();
    let amp = "&amp;"@;
    reveal_strlit("<script");
    reveal_strlit("<style");
    let no_scripts = elements_replaced(html, "<script"@, "</script>"@, " "@);
    let no_styles = elements_replaced(no_scripts, "<style"@, "</style>"@, " "@);
    let blanked = markup_blanked(html);
    lemma_none_made_by_elements(html, "<script"@, "</script>"@, amp);
    lemma_none_made_by_elements(no_scripts, "<style"@, "</style>"@, amp);
    lemma_none_made_by_tags(no_styles, amp);
    lemma_none_left_by_decoding(blanked, entity, c);
    let text = entities_decoded(blanked);
    lemma_none_made_by_thinning(text, entity);
    let thinned = blank_lines_replaced(text, "\n\n"@);
    let out = page_text(html);
    lemma_trimmed(thinned);
    if occurs(out, entity) {
        let (a, b) = choose|a: int, b: int|
            0 <= a <= b <= thinned.len() && out == #[trigger] thinned.subrange(a, b);
        let i = choose|i: int| occurs_at(out, entity, i);
        assert(thinned.subrange(a + i, a + i + entity.len()) =~= out.subrange(
            i,
            i + entity.len(),
        ));
        assert(occurs_at(thinned, entity, a + i));
    }
}

proof fn lemma_none_left_by_decoding(s: Seq<char>, entity: Seq<char>, c: char)
    requires
        is_entity(entity, c),
        !occurs(s, "&amp;"@),
    ensures
        !occurs(entities_decoded(s), entity),
{
    lemma_formed();
    reveal_strlit("<");
    reveal_strlit(">");
    reveal_strlit("\"");
    reveal_strlit("'");
    reveal_strlit(" ");
    assert("<"@ =~= seq!['<']);
    assert(">"@ =~= seq!['>']);
    assert("\""@ =~= seq!['"']);
    assert("'"@ =~= seq!['\'']);
    assert(" "@ =~= seq![' ']);
    lemma_replaced_absent(s, "&amp;"@, "&"@);
    let s1 = replaced(s, "&lt;"@, "<"@);
    let s2 = replaced(s1, "&gt;"@, ">"@);
    let s3 = replaced(s2, "&quot;"@, "\""@);
    let s4 = replaced(s3, "&#39;"@, "'"@);
    if entity == "&lt;"@ || !occurs(s, entity) {
        lemma_none_made(s, entity, "&lt;"@, '<');
    }
    if entity == "&gt;"@ || !occurs(s1, entity) {
        lemma_none_made(s1, entity, "&gt;"@, '>');
    }
    if entity == "&quot;"@ || !occurs(s2, entity) {
        lemma_none_made(s2, entity, "&quot;"@, '"');
    }
    if entity == "&#39;"@ || !occurs(s3, entity) {
        lemma_none_made(s3, entity, "&#39;"@, '\'');
    }
    if entity == "&nbsp;"@ || !occurs(s4, entity) {
        lemma_none_made(s4, entity, "&nbsp;"@, ' ');
    }
}

/// The characters of `s` that are not white space, in order.
pub open spec fn ink(s: Seq<char>) -> Seq<char> {
    s.filter(|c: char| !is_white_space(c))
}

/// Thinning the blank lines and trimming touch nothing but white space: whatever else stands in a
/// page with its markup blanked and its entities decoded stands in its plain text.
pub proof fn lemma_ink_kept(html: Seq<char>)
    ensures
        ink(page_text(html)) == ink(entities_decoded(markup_blanked(html))),
        has_clean_ends(page_text(html)),
{
    let text = entities_decoded(markup_blanked(html));
    let thinned = blank_lines_replaced(text, "\n\n"@);
    lemma_ink_thinned(text);
    lemma_ink_trimmed(thinned);
    lemma_trimmed(thinned);
}

/// An entity of a page with its markup blanked is the character that it stands for in the text.
pub proof fn lemma_entity_in_page(
    html: Seq<char>,
    p: Seq<char>,
    entity: Seq<char>,
    c: char,
    q: Seq<char>,
)
    requires
        is_entity(entity, c),
        markup_blanked(html) == p + entity + q,
    ensures
        ink(page_text(html)) == ink(entities_decoded(p) + seq![c] + entities_decoded(q)),
{
    lemma_ink_kept(html);
    lemma_entity_decoded(p, entity, c, q);
}

proof fn lemma_ink_blank(s: Seq<char>)
    requires
        is_blank(s),
    ensures
        ink(s) == Seq::<char>::empty(),
    decreases s.len(),
{
    reveal(Seq::filter);
    if s.len() > 0 {
        assert(is_white_space(s[s.len() - 1]));
        assert(forall|i: int| 0 <= i < s.len() - 1 ==> s.drop_last()[i] == s[i]);
        lemma_ink_blank(s.drop_last());
    }
}

proof fn lemma_ink_parts(a: Seq<char>, b: Seq<char>)
    ensures
        ink(a + b) == ink(a) + ink(b),
{
    Seq::filter_distributes_over_add(a, b, |c: char| !is_white_space(c));
}

proof fn lemma_run_kind(s: Seq<char>, i: int, kind: spec_fn(char) -> bool, k: int)
    requires
        0 <= i <= k < run_end(s, i, kind),
    ensures
        k < s.len(),
        kind(s[k]),
    decreases s.len() - i,
{
    if i < s.len() && kind(s[i]) && i < k {
        lemma_run_kind(s, i + 1, kind, k);
    }
}

proof fn lemma_blank_lines_blank(s: Seq<char>)
    ensures
        blank_lines_end(s) matches Some(j) ==> is_blank(s.take(j)),
{
    if let Some(j) = blank_lines_end(s) {
        lemma_blank_lines_end(s);
        let blank = |c: char| c == ' ' || c == '\t';
        let feed = |c: char| c == '\n';
        let a = run_end(s, 1, blank);
        let b = run_end(s, a + 1, blank);
        lemma_run_end(s, 1, blank);
        lemma_run_end(s, a + 1, blank);
        assert forall|k: int| 0 <= k < s.take(j).len() implies is_white_space(
            #[trigger] s.take(j)[k],
        ) by {
            if 1 <= k < a {
                lemma_run_kind(s, 1, blank, k);
            } else if a < k < b {
                lemma_run_kind(s, a + 1, blank, k);
            } else if k > b {
                lemma_run_kind(s, b + 1, feed, k);
            }
        }
    }
}

proof fn lemma_ink_thinned(s: Seq<char>)
    ensures
        ink(blank_lines_replaced(s, "\n\n"@)) == ink(s),
    decreases s.len(),
{
    reveal_strlit("\n\n");
    if s.len() > 0 {
        lemma_blank_lines_end(s);
        match blank_lines_end(s) {
            Some(j) => {
                lemma_blank_lines_blank(s);
                lemma_ink_thinned(s.skip(j));
                lemma_ink_blank(s.take(j));
                lemma_ink_blank("\n\n"@);
                lemma_ink_parts("\n\n"@, blank_lines_replaced(s.skip(j), "\n\n"@));
                lemma_ink_parts(s.take(j), s.skip(j));
                assert(s.take(j) + s.skip(j) =~= s);
            },
            None => {
                lemma_ink_thinned(s.skip(1));
                lemma_ink_parts(seq![s.first()], blank_lines_replaced(s.skip(1), "\n\n"@));
                lemma_ink_parts(seq![s.first()], s.skip(1));
                assert(seq![s.first()] + s.skip(1) =~= s);
            },
        }
    }
}

proof fn lemma_ink_trimmed(s: Seq<char>)
    ensures
        ink(trimmed(s)) == ink(s),
{
    lemma_ink_start(s);
    lemma_ink_end(trimmed_start(s));
}

proof fn lemma_ink_start(s: Seq<char>)
    ensures
        ink(trimmed_start(s)) == ink(s),
    decreases s.len(),
{
    if s.len() > 0 && is_white_space(s.first()) {
        lemma_ink_start(s.drop_first());
        lemma_ink_blank(seq![s.first()]);
        lemma_ink_parts(seq![s.first()], s.drop_first());
        assert(seq![s.first()] + s.drop_first() =~= s);
        assert(Seq::<char>::empty() + ink(s.drop_first()) =~= ink(s.drop_first()));
    }
}

proof fn lemma_ink_end(s: Seq<char>)
    ensures
        ink(trimmed_end(s)) == ink(s),
    decreases s.len(),
{
    if s.len() > 0 && is_white_space(s.last()) {
        lemma_ink_end(s.drop_last());
        lemma_ink_blank(seq![s.last()]);
        lemma_ink_parts(s.drop_last(), seq![s.last()]);
        assert(s.drop_last() + seq![s.last()] =~= s);
        assert(ink(s.drop_last()) + Seq::<char>::empty() =~= ink(s.drop_last()));
    }
}

/// A page without a complete tag has no markup.
pub proof fn lemma_no_markup(html: Seq<char>)
    requires
        !holds_tag(html),
    ensures
        markup_blanked(html) == html,
{
    lemma_no_element_without_tag(html, "<script"@, "</script>"@);
    lemma_no_element_without_tag(html, "<style"@, "</style>"@);
    lemma_tags_absent(html);
}

/// A text without a complete tag is decoded, and then its blank lines are thinned and the white
/// space around it is removed.
pub proof fn lemma_text_without_markup(text: Seq<char>)
    requires
        !holds_tag(text),
    ensures
        page_text(text) == trimmed(blank_lines_replaced(entities_decoded(text), "\n\n"@)),
{
    lemma_no_markup(text);
}

/// The content type of a page is the one that it comes with, letter for letter.
pub proof fn lemma_content_type(given: String, body: Vec<u8>)
    ensures
        (Fetched::Page { content_type: Some(given), body }).content_type() == given@,
        (Fetched::Page { content_type: None, body }).content_type().len() == 0,
{
}

} // verus!
