//! The regular expressions that the crate searches with, and the calls into `regex`.
//!
//! What a search returns is written out for each pattern. Only the characters beyond ASCII that
//! count as digits, or as parts of a word, are left to the name of what `regex` finds.

use regex::Captures;
use regex::Regex;
use vstd::prelude::*;

use crate::citations::cite_label;
use crate::citations::cites_rewritten;
use crate::citations::Refs;
use crate::json::opt_text;
use crate::text::ascii_lower;
use crate::text::first_occurrence;
use crate::text::is_blank;
use crate::text::is_white_space;
use crate::text::lemma_first_occurrence;
use crate::text::occurs;
use crate::text::occurs_at;

verus! {

/// A citation marker; its group is the reference that it cites.
pub const CITE: &'static str = "\u{e200}cite\u{e202}([^\u{e201}]*)\u{e201}";

/// One character of the private use area.
pub const PRIVATE_USE: &'static str = "[\u{e000}-\u{f8ff}]";

/// A word limit such as `[wordlim: 200]`.
pub const WORD_LIMIT: &'static str = "\\[wordlim:\\s*\\d+\\]";

/// A line number such as `L12: `, with what comes before it as the first group.
pub const LINE_NUMBER: &'static str = "(^|[\\s ])(L\\d+:\\s?)";

/// A script element of a page.
pub const SCRIPT: &'static str = "(?is)<script.*?</script>";

/// A style element of a page.
pub const STYLE: &'static str = "(?is)<style.*?</style>";

/// A tag of a page.
pub const TAG: &'static str = "<[^>]+>";

/// Two or more blank lines.
pub const BLANK_LINES: &'static str = "\\n[ \\t]*\\n[ \\t]*\\n+";

/// The encoding that a page declares, in the first group or else in the second.
pub const META_CHARSET: &'static str =
    "(?is)(?:charset\\s*=\\s*[\"']?\\s*([\\w-]+)|content\\s*=\\s*[\"'][^>]*charset=([\\w-]+))";

/// The marker of a link that can be followed, such as `[turn0search0:`.
pub const LINK_MARKER: &'static str = "\\[(?:c\\d+|\\w*search\\w*):";

// ---------------------------------------------------------------------------
// What the patterns match
// ---------------------------------------------------------------------------
/// The characters U+E000 to U+F8FF.
pub open spec fn is_private_use(c: char) -> bool {
    '\u{e000}' <= c <= '\u{f8ff}'
}

/// `text` without its private use characters.
pub open spec fn without_private_use(text: Seq<char>) -> Seq<char> {
    text.filter(|c: char| !is_private_use(c))
}

/// `c` is `letter`, a lower case character, in whatever case. The letter `s` has a third form.
pub open spec fn is_in_any_case(c: char, letter: char) -> bool {
    ascii_lower(c) == letter || (letter == 's' && c == '\u{17f}')
}

/// `word` stands in `s` from position `i` on, in whatever case.
pub open spec fn word_at(s: Seq<char>, word: Seq<char>, i: int) -> bool {
    0 <= i && i + word.len() <= s.len() && forall|k: int|
        0 <= k < word.len() ==> is_in_any_case(#[trigger] s[i + k], word[k])
}

/// The first place at or after `from` where `word` stands, in whatever case.
pub open spec fn first_word(s: Seq<char>, word: Seq<char>, from: int) -> Option<int>
    decreases s.len() + 1 - from,
{
    if from + word.len() > s.len() {
        None
    } else if word_at(s, word, from) {
        Some(from)
    } else {
        first_word(s, word, from + 1)
    }
}

/// `first_word` is a place where the word stands, and none comes before it.
pub proof fn lemma_first_word(s: Seq<char>, word: Seq<char>, from: int)
    requires
        0 <= from,
    ensures
        match first_word(s, word, from) {
            Some(i) => from <= i && word_at(s, word, i) && (forall|j: int|
                from <= j < i ==> !word_at(s, word, j)),
            None => forall|j: int| from <= j ==> !word_at(s, word, j),
        },
    decreases s.len() + 1 - from,
{
    if from + word.len() > s.len() {
    } else if word_at(s, word, from) {
    } else {
        lemma_first_word(s, word, from + 1);
    }
}

/// `s` with each stretch from `open` to the first `close` after it turned into `by`.
pub open spec fn elements_replaced(
    s: Seq<char>,
    open: Seq<char>,
    close: Seq<char>,
    by: Seq<char>,
) -> Seq<char>
    decreases s.len(),
{
    if s.len() == 0 || open.len() == 0 {
        s
    } else {
        proof {
            lemma_first_word(s, close, open.len() as int);
        }
        match (word_at(s, open, 0), first_word(s, close, open.len() as int)) {
            (true, Some(j)) => by + elements_replaced(s.skip(j + close.len()), open, close, by),
            _ => seq![s.first()] + elements_replaced(s.skip(1), open, close, by),
        }
    }
}

/// Where the tag that `s` starts with ends: at the first `>`, which must not come right behind
/// the `<`.
pub open spec fn tag_end(s: Seq<char>) -> Option<int> {
    if s.len() > 1 && s[0] == '<' && s[1] != '>' {
        first_occurrence(s, seq!['>'], 2)
    } else {
        None
    }
}

/// `s` with each tag turned into `by`.
pub open spec fn tags_replaced(s: Seq<char>, by: Seq<char>) -> Seq<char>
    decreases s.len(),
{
    if s.len() == 0 {
        s
    } else {
        proof {
            lemma_first_occurrence(s, seq!['>'], 2);
        }
        match tag_end(s) {
            Some(j) => by + tags_replaced(s.skip(j + 1), by),
            None => seq![s.first()] + tags_replaced(s.skip(1), by),
        }
    }
}

/// The first place at or after `i` that holds no character of a kind.
pub open spec fn run_end(s: Seq<char>, i: int, kind: spec_fn(char) -> bool) -> int
    decreases s.len() - i,
{
    if 0 <= i < s.len() && kind(s[i]) {
        run_end(s, i + 1, kind)
    } else {
        i
    }
}

/// A run ends where it starts or later, and within the text.
pub proof fn lemma_run_end(s: Seq<char>, i: int, kind: spec_fn(char) -> bool)
    ensures
        i <= run_end(s, i, kind),
        i <= s.len() ==> run_end(s, i, kind) <= s.len(),
    decreases s.len() - i,
{
    if 0 <= i < s.len() && kind(s[i]) {
        lemma_run_end(s, i + 1, kind);
    }
}

/// Where the blank lines that `s` starts with end: three line feeds or more, with spaces and
/// tabs allowed before the second and before the third.
pub open spec fn blank_lines_end(s: Seq<char>) -> Option<int> {
    let blank = |c: char| c == ' ' || c == '\t';
    let a = run_end(s, 1, blank);
    let b = run_end(s, a + 1, blank);
    if s.len() > 0 && s[0] == '\n' && a < s.len() && s[a] == '\n' && b < s.len() && s[b] == '\n' {
        Some(run_end(s, b + 1, |c: char| c == '\n'))
    } else {
        None
    }
}

/// Blank lines that `s` starts with end within it, after three characters or more.
pub proof fn lemma_blank_lines_end(s: Seq<char>)
    ensures
        blank_lines_end(s) matches Some(j) ==> 3 <= j <= s.len(),
{
    let blank = |c: char| c == ' ' || c == '\t';
    let a = run_end(s, 1, blank);
    let b = run_end(s, a + 1, blank);
    lemma_run_end(s, 1, blank);
    lemma_run_end(s, a + 1, blank);
    lemma_run_end(s, b + 1, |c: char| c == '\n');
}

/// `s` with each run of blank lines turned into `by`.
pub open spec fn blank_lines_replaced(s: Seq<char>, by: Seq<char>) -> Seq<char>
    decreases s.len(),
{
    if s.len() == 0 {
        s
    } else {
        proof {
            lemma_blank_lines_end(s);
        }
        match blank_lines_end(s) {
            Some(j) => by + blank_lines_replaced(s.skip(j), by),
            None => seq![s.first()] + blank_lines_replaced(s.skip(1), by),
        }
    }
}

/// The characters of the class `\d`: the ten digits, and beyond ASCII what the class holds there.
pub open spec fn is_decimal(c: char) -> bool {
    '0' <= c <= '9' || (c > '\u{7f}' && regex_found("\\d"@, seq![c]))
}

/// The characters of the class `\w`: letters, digits and the underscore, and beyond ASCII what the
/// class holds there.
pub open spec fn is_word(c: char) -> bool {
    ||| '0' <= c <= '9'
    ||| 'A' <= c <= 'Z'
    ||| 'a' <= c <= 'z'
    ||| c == '_'
    ||| c > '\u{7f}' && regex_found("\\w"@, seq![c])
}

/// Where the word limit that `s` starts with ends: white space may stand before its digits.
pub open spec fn word_limit_end(s: Seq<char>) -> Option<int> {
    let a = run_end(s, 9, |c: char| is_white_space(c));
    let b = run_end(s, a, |c: char| is_decimal(c));
    if occurs_at(s, "[wordlim:"@, 0) && a < b < s.len() && s[b] == ']' {
        Some(b + 1)
    } else {
        None
    }
}

/// A word limit ends within the text.
pub proof fn lemma_word_limit_end(s: Seq<char>)
    ensures
        word_limit_end(s) matches Some(j) ==> 0 < j <= s.len(),
{
    lemma_run_end(s, 9, |c: char| is_white_space(c));
}

/// `s` with each word limit turned into `by`.
pub open spec fn word_limits_replaced(s: Seq<char>, by: Seq<char>) -> Seq<char>
    decreases s.len(),
{
    if s.len() == 0 {
        s
    } else {
        proof {
            lemma_word_limit_end(s);
        }
        match word_limit_end(s) {
            Some(j) => by + word_limits_replaced(s.skip(j), by),
            None => seq![s.first()] + word_limits_replaced(s.skip(1), by),
        }
    }
}

/// Where the line number that stands at `i` ends: an `L`, digits, a colon, and the white space
/// character behind it where there is one.
pub open spec fn line_number_end(s: Seq<char>, i: int) -> Option<int> {
    let d = run_end(s, i + 1, |c: char| is_decimal(c));
    if 0 <= i < s.len() && s[i] == 'L' && i + 1 < d < s.len() && s[d] == ':' {
        if d + 1 < s.len() && is_white_space(s[d + 1]) {
            Some(d + 2)
        } else {
            Some(d + 1)
        }
    } else {
        None
    }
}

/// A line number has a length.
pub proof fn lemma_line_number_end(s: Seq<char>, i: int)
    ensures
        line_number_end(s, i) matches Some(j) ==> i < j <= s.len(),
{
    lemma_run_end(s, i + 1, |c: char| is_decimal(c));
}

/// What is left of `s` from `i` on without its line numbers: one at the very start, and those
/// behind a white space character, which stays.
pub open spec fn line_numbers_removed(s: Seq<char>, i: int) -> Seq<char>
    decreases s.len() - i,
{
    if i < 0 || i >= s.len() {
        Seq::empty()
    } else {
        proof {
            lemma_line_number_end(s, i);
            lemma_line_number_end(s, i + 1);
        }
        match (i == 0, line_number_end(s, i), is_white_space(s[i]), line_number_end(s, i + 1)) {
            (true, Some(j), _, _) => line_numbers_removed(s, j),
            (_, _, true, Some(j)) => seq![s[i]] + line_numbers_removed(s, j),
            _ => seq![s[i]] + line_numbers_removed(s, i + 1),
        }
    }
}

/// The label of a link that can be followed: a `c` and digits, or a word with `search` in it.
pub open spec fn is_link_label(label: Seq<char>) -> bool {
    ||| label.len() > 1 && label[0] == 'c' && forall|i: int|
        1 <= i < label.len() ==> is_decimal(#[trigger] label[i])
    ||| occurs(label, "search"@) && forall|i: int|
        0 <= i < label.len() ==> is_word(#[trigger] label[i])
}

/// Somewhere in `s` such a label stands between a bracket and a colon.
pub open spec fn has_link_marker(s: Seq<char>) -> bool {
    exists|i: int, j: int|
        0 <= i < j < s.len() && #[trigger] s[i] == '[' && #[trigger] s[j] == ':' && is_link_label(
            s.subrange(i + 1, j),
        )
}

/// A quotation mark, single or double.
pub open spec fn is_quote(c: char) -> bool {
    c == '"' || c == '\''
}

/// Where the value of an attribute starts, if the attribute stands at `i`: white space is allowed
/// on either side of the equals sign.
pub open spec fn value_start(s: Seq<char>, attribute: Seq<char>, i: int) -> Option<int> {
    let a = run_end(s, i + attribute.len(), |c: char| is_white_space(c));
    if word_at(s, attribute, i) && a < s.len() && s[a] == '=' {
        Some(run_end(s, a + 1, |c: char| is_white_space(c)))
    } else {
        None
    }
}

/// The label that stands at `i`: the characters of a word and hyphens, as many as there are.
pub open spec fn label_at(s: Seq<char>, i: int) -> Option<Seq<char>> {
    let j = run_end(s, i, |c: char| is_word(c) || c == '-');
    if i < j {
        Some(s.subrange(i, j))
    } else {
        None
    }
}

/// The label of a `charset` at `i`, which may stand behind a quotation mark.
pub open spec fn charset_label(s: Seq<char>, i: int) -> Option<Seq<char>> {
    match value_start(s, "charset"@, i) {
        Some(v) => if v < s.len() && is_quote(s[v]) {
            label_at(s, run_end(s, v + 1, |c: char| is_white_space(c)))
        } else {
            label_at(s, v)
        },
        None => None,
    }
}

/// The label of the last `charset=` from `i` on, up to the end of the tag.
pub open spec fn last_charset_label(s: Seq<char>, i: int) -> Option<Seq<char>>
    decreases s.len() - i,
{
    if i < 0 || i >= s.len() {
        None
    } else {
        let later = if s[i] == '>' {
            None
        } else {
            last_charset_label(s, i + 1)
        };
        if later is None && word_at(s, "charset="@, i) {
            label_at(s, i + 8)
        } else {
            later
        }
    }
}

/// The label in the value of a `content` at `i`, which must stand behind a quotation mark.
pub open spec fn content_label(s: Seq<char>, i: int) -> Option<Seq<char>> {
    match value_start(s, "content"@, i) {
        Some(v) => if v < s.len() && is_quote(s[v]) {
            last_charset_label(s, v + 1)
        } else {
            None
        },
        None => None,
    }
}

/// The first declaration of an encoding from `i` on: the label of a `charset`, or the one in the
/// value of a `content`.
pub open spec fn declaration(s: Seq<char>, i: int) -> Option<
    (Option<Seq<char>>, Option<Seq<char>>),
>
    decreases s.len() - i,
{
    if i < 0 || i >= s.len() {
        None
    } else {
        match (charset_label(s, i), content_label(s, i)) {
            (Some(label), _) => Some((Some(label), None)),
            (None, Some(label)) => Some((None, Some(label))),
            (None, None) => declaration(s, i + 1),
        }
    }
}

// ---------------------------------------------------------------------------
// The calls
// ---------------------------------------------------------------------------
/// Whether `Regex::is_match` finds a pattern in `text`.
pub uninterp spec fn regex_found(pattern: Seq<char>, text: Seq<char>) -> bool;

/// `Regex::replace_all` with a pattern of this module: replaces the matches, read from the left
/// and without overlap, by a text that is taken as it stands, or, for line numbers, by the first
/// group. For each pattern the result is written out.
#[verifier::external_body]
pub(crate) fn replace_all(pattern: &str, text: &str, replacement: &str) -> (r: String)
    requires
        (pattern@ == PRIVATE_USE@ && replacement@.len() == 0) || (pattern@ == LINE_NUMBER@
            && replacement@ == "$1"@) || ((pattern@ == WORD_LIMIT@ || pattern@ == SCRIPT@ || pattern@
            == STYLE@ || pattern@ == TAG@ || pattern@ == BLANK_LINES@) && !replacement@.contains(
            '$',
        )),
    ensures
        pattern@ == PRIVATE_USE@ ==> r@ == without_private_use(text@),
        pattern@ == LINE_NUMBER@ ==> r@ == line_numbers_removed(text@, 0),
        pattern@ == WORD_LIMIT@ ==> r@ == word_limits_replaced(text@, replacement@),
        pattern@ == SCRIPT@ ==> r@ == elements_replaced(
            text@,
            "<script"@,
            "</script>"@,
            replacement@,
        ),
        pattern@ == STYLE@ ==> r@ == elements_replaced(
            text@,
            "<style"@,
            "</style>"@,
            replacement@,
        ),
        pattern@ == TAG@ ==> r@ == tags_replaced(text@, replacement@),
        pattern@ == BLANK_LINES@ ==> r@ == blank_lines_replaced(text@, replacement@),
{
    Regex::new(pattern).unwrap().replace_all(text, replacement).into_owned()
}

/// `Regex::replace_all` with the pattern of a citation and a closure: each marker, read from the
/// left, becomes the label of what its group holds.
#[verifier::external_body]
pub(crate) fn replace_cites(pattern: &str, text: &str, refs: &Refs) -> (r: String)
    requires
        pattern@ == CITE@,
    ensures
        r@ == cites_rewritten(text@, refs@),
{
    Regex::new(pattern).unwrap().replace_all(
        text,
        |caps: &Captures| cite_label(&caps[1], refs),
    ).into_owned()
}

/// `Regex::is_match` with the pattern of a link marker, or with a class of characters: whether it
/// matches somewhere in the text. For a link marker that is written out.
#[verifier::external_body]
pub(crate) fn is_match(pattern: &str, text: &str) -> (r: bool)
    requires
        pattern@ == LINK_MARKER@ || pattern@ == "\\d"@ || pattern@ == "\\w"@,
    ensures
        r == regex_found(pattern@, text@),
        pattern@ == LINK_MARKER@ ==> r == has_link_marker(text@),
{
    Regex::new(pattern).unwrap().is_match(text)
}

/// `Regex::captures` with the pattern of a declared encoding: what the two groups of the first
/// match hold, where there is a match.
#[verifier::external_body]
pub(crate) fn first_groups(pattern: &str, text: &str) -> (r: Option<
    (Option<String>, Option<String>),
>)
    requires
        pattern@ == META_CHARSET@,
    ensures
        match r {
            Some(g) => declaration(text@, 0) == Some((opt_text(g.0), opt_text(g.1))),
            None => declaration(text@, 0) is None,
        },
{
    let caps = Regex::new(pattern).unwrap().captures(text)?;
    Some(
        (caps.get(1).map(|m| m.as_str().to_string()), caps.get(2).map(|m| m.as_str().to_string())),
    )
}

// ---------------------------------------------------------------------------
// Laws
// ---------------------------------------------------------------------------
/// A run ends behind the last character of its kind.
pub proof fn lemma_run_over(s: Seq<char>, i: int, j: int, kind: spec_fn(char) -> bool)
    requires
        0 <= i <= j <= s.len(),
        forall|k: int| i <= k < j ==> kind(#[trigger] s[k]),
        j < s.len() ==> !kind(s[j]),
    ensures
        run_end(s, i, kind) == j,
    decreases j - i,
{
    if i < j {
        assert(kind(s[i]));
        lemma_run_over(s, i + 1, j, kind);
    }
}

/// Where a run ends does not depend on what stands before it.
pub proof fn lemma_run_moved(
    x: Seq<char>,
    y: Seq<char>,
    tail: Seq<char>,
    i: int,
    kind: spec_fn(char) -> bool,
)
    requires
        0 <= i,
    ensures
        run_end(x + tail, x.len() + i, kind) - x.len() == run_end(y + tail, y.len() + i, kind)
            - y.len(),
    decreases tail.len() - i,
{
    if i < tail.len() {
        assert((x + tail)[x.len() + i] == tail[i]);
        assert((y + tail)[y.len() + i] == tail[i]);
        if kind(tail[i]) {
            lemma_run_moved(x, y, tail, i + 1, kind);
        }
    }
}

/// Text without a bracket holds no word limit and stays in front of what follows it.
pub proof fn lemma_no_word_limit(a: Seq<char>, b: Seq<char>)
    requires
        !a.contains('['),
    ensures
        word_limits_replaced(a + b, Seq::empty()) == a + word_limits_replaced(b, Seq::empty()),
    decreases a.len(),
{
    let s = a + b;
    if a.len() == 0 {
        assert(s =~= b);
        assert(a + word_limits_replaced(b, Seq::empty()) =~= word_limits_replaced(b, Seq::empty()));
    } else {
        reveal_strlit("[wordlim:");
        assert(a.contains(a[0]));
        if occurs_at(s, "[wordlim:"@, 0) {
            assert(s.subrange(0, 9)[0] == "[wordlim:"@[0]);
        }
        assert(s.skip(1) =~= a.skip(1) + b);
        assert forall|c: char| a.skip(1).contains(c) implies a.contains(c) by {
            let k = a.skip(1).index_of(c);
            assert(a[k + 1] == c);
        }
        lemma_no_word_limit(a.skip(1), b);
        assert(seq![s.first()] + (a.skip(1) + word_limits_replaced(b, Seq::empty())) =~= a
            + word_limits_replaced(b, Seq::empty()));
    }
}

/// A word limit is what stands between `[wordlim:` and `]`: white space, and digits.
pub proof fn lemma_word_limit_removed(blank: Seq<char>, digits: Seq<char>, after: Seq<char>)
    requires
        is_blank(blank),
        digits.len() > 0,
        forall|i: int| 0 <= i < digits.len() ==> '0' <= (#[trigger] digits[i]) <= '9',
    ensures
        word_limits_replaced("[wordlim:"@ + blank + digits + seq![']'] + after, Seq::empty())
            == word_limits_replaced(after, Seq::empty()),
{
    reveal_strlit("[wordlim:");
    let s = "[wordlim:"@ + blank + digits + seq![']'] + after;
    let a = 9 + blank.len() as int;
    let b = a + digits.len() as int;
    assert(s.subrange(0, 9) =~= "[wordlim:"@);
    assert forall|k: int| 9 <= k < a implies is_white_space(#[trigger] s[k]) by {
        assert(s[k] == blank[k - 9]);
    }
    assert forall|k: int| a <= k < b implies is_decimal(#[trigger] s[k]) by {
        assert(s[k] == digits[k - a]);
    }
    assert(s[a] == digits[0]);
    assert(s[b] == ']');
    lemma_run_over(s, 9, a, |c: char| is_white_space(c));
    lemma_run_over(s, a, b, |c: char| is_decimal(c));
    assert(word_limit_end(s) == Some(b + 1));
    assert(s.skip(b + 1) =~= after);
    let rest = word_limits_replaced(after, Seq::empty());
    assert(Seq::<char>::empty() + rest =~= rest);
}

/// Text that no line number starts in stays in front of what follows it.
pub proof fn lemma_no_line_number(s: Seq<char>, i: int, j: int)
    requires
        0 <= i <= j <= s.len(),
        forall|k: int| i <= k <= j && k < s.len() ==> #[trigger] s[k] != 'L',
    ensures
        line_numbers_removed(s, i) == s.subrange(i, j) + line_numbers_removed(s, j),
    decreases j - i,
{
    if i < j {
        assert(line_number_end(s, i) is None);
        assert(line_number_end(s, i + 1) is None) by {
            if i + 1 < s.len() {
                assert(s[i + 1] != 'L');
            }
        }
        lemma_no_line_number(s, i + 1, j);
        assert(seq![s[i]] + (s.subrange(i + 1, j) + line_numbers_removed(s, j)) =~= s.subrange(
            i,
            j,
        ) + line_numbers_removed(s, j));
    } else {
        assert(s.subrange(i, j) + line_numbers_removed(s, j) =~= line_numbers_removed(s, j));
    }
}

/// Behind the start of a text, what becomes of its end does not depend on what stands before it.
pub proof fn lemma_line_numbers_moved(x: Seq<char>, y: Seq<char>, tail: Seq<char>, i: int)
    requires
        x.len() > 0,
        y.len() > 0,
        0 <= i <= tail.len(),
    ensures
        line_numbers_removed(x + tail, x.len() + i) == line_numbers_removed(
            y + tail,
            y.len() + i,
        ),
    decreases tail.len() - i,
{
    let s = x + tail;
    let t = y + tail;
    let p = x.len() + i;
    let q = y.len() + i;
    if i < tail.len() {
        assert(s[p] == tail[i] && t[q] == tail[i]);
        lemma_line_number_moved(x, y, tail, i + 1);
        lemma_line_number_end(s, p + 1);
        match line_number_end(s, p + 1) {
            Some(e) => {
                if is_white_space(tail[i]) {
                    lemma_line_numbers_moved(x, y, tail, e - x.len());
                } else {
                    lemma_line_numbers_moved(x, y, tail, i + 1);
                }
            },
            None => {
                lemma_line_numbers_moved(x, y, tail, i + 1);
            },
        }
    }
}

/// Where a line number ends does not depend on what stands before it.
pub proof fn lemma_line_number_moved(x: Seq<char>, y: Seq<char>, tail: Seq<char>, i: int)
    requires
        0 <= i,
    ensures
        match (line_number_end(x + tail, x.len() + i), line_number_end(y + tail, y.len() + i)) {
            (Some(a), Some(b)) => a - x.len() == b - y.len(),
            (None, None) => true,
            _ => false,
        },
{
    let s = x + tail;
    let t = y + tail;
    let kind = |c: char| is_decimal(c);
    lemma_run_moved(x, y, tail, i + 1, kind);
    lemma_run_end(s, x.len() + i + 1, kind);
    let d = run_end(s, x.len() + i + 1, kind) - x.len();
    if i < tail.len() {
        assert(s[x.len() + i] == tail[i] && t[y.len() + i] == tail[i]);
    }
    if 0 <= d < tail.len() {
        assert(s[x.len() + d] == tail[d] && t[y.len() + d] == tail[d]);
    }
    if 0 <= d + 1 < tail.len() {
        assert(s[x.len() + d + 1] == tail[d + 1] && t[y.len() + d + 1] == tail[d + 1]);
    }
}

/// A line number: an `L`, digits, a colon, and one white space character where there is one.
pub open spec fn line_number(digits: Seq<char>, pad: Seq<char>) -> Seq<char> {
    seq!['L'] + digits + seq![':'] + pad
}

/// A line number ends where it says, whatever stands before it.
pub proof fn lemma_line_number_found(
    before: Seq<char>,
    digits: Seq<char>,
    pad: Seq<char>,
    after: Seq<char>,
)
    requires
        digits.len() > 0,
        forall|i: int| 0 <= i < digits.len() ==> '0' <= (#[trigger] digits[i]) <= '9',
        (pad.len() == 1 && is_white_space(pad[0])) || (pad.len() == 0 && (after.len() == 0
            || !is_white_space(after[0]))),
    ensures
        line_number_end(
            before + line_number(digits, pad) + after,
            before.len() as int,
        ) == Some(before.len() + line_number(digits, pad).len() as int),
{
    let s = before + line_number(digits, pad) + after;
    let i = before.len() as int;
    let d = i + 1 + digits.len() as int;
    assert(s[i] == 'L');
    assert forall|k: int| i + 1 <= k < d implies is_decimal(#[trigger] s[k]) by {
        assert(s[k] == digits[k - i - 1]);
    }
    assert(s[d] == ':');
    lemma_run_over(s, i + 1, d, |c: char| is_decimal(c));
    if pad.len() == 1 {
        assert(s[d + 1] == pad[0]);
    } else if after.len() > 0 {
        assert(s[d + 1] == after[0]);
    }
}

} // verus!
