//! The encoding of a page, and the text that its bytes stand for.
//!
//! An encoding is known by its name in the Encoding Standard, such as `GBK` or `UTF-8`.

use encoding_rs::Encoding;
use vstd::prelude::*;
use vstd::slice::*;
use vstd::utf8::*;

use crate::json::opt_text;
use crate::patterns::declaration;
use crate::patterns::first_groups;
use crate::patterns::META_CHARSET;
use crate::text::ascii_lowered;
use crate::text::chars_of;
use crate::text::find_from;
use crate::text::first_occurrence;
use crate::text::has_clean_ends;
use crate::text::is_blank;
use crate::text::lemma_first_occurrence;
use crate::text::lemma_trimmed_core;
use crate::text::lower_chars;
use crate::text::occurs;
use crate::text::occurs_at;
use crate::text::string_between;
use crate::text::trim;
use crate::text::trimmed;

verus! {

// ---------------------------------------------------------------------------
// The calls
// ---------------------------------------------------------------------------
/// The name of the encoding that `Encoding::for_label` finds for a label.
pub uninterp spec fn encoding_for_label(label: Seq<char>) -> Option<Seq<char>>;

/// The text that `Encoding::decode` makes of some bytes in the encoding of that name.
pub uninterp spec fn decoded(encoding: Seq<char>, body: Seq<u8>) -> Seq<char>;

/// The text that `String::from_utf8_lossy` makes of some bytes.
pub uninterp spec fn utf8_lossy(bytes: Seq<u8>) -> Seq<char>;

/// `Encoding::for_label`: the name of the encoding with that label, where there is one. The name
/// of an encoding is one of its own labels.
#[verifier::external_body]
fn for_label(label: &str) -> (r: Option<String>)
    ensures
        opt_text(r) == encoding_for_label(label@),
        r matches Some(name) ==> encoding_for_label(name@) == Some(name@),
{
    Encoding::for_label(label.as_bytes()).map(|e| e.name().to_string())
}

/// The bodies whose decoded text has a size that can be computed, and a buffer that can grow to
/// hold it: the buffer may take up to four times the bytes, and twice that when it grows.
pub open spec fn decodable(body: Seq<u8>) -> bool {
    body.len() <= usize::MAX / 16
}

/// `Encoding::decode`, with the encoding of that name: a function of the name and the bytes.
#[verifier::external_body]
fn decode(encoding: &str, body: &[u8]) -> (r: String)
    requires
        encoding@ == "UTF-8"@ || encoding_for_label(encoding@) is Some,
        decodable(body@),
    ensures
        r@ == decoded(encoding@, body@),
{
    Encoding::for_label(encoding.as_bytes()).unwrap().decode(body).0.into_owned()
}

/// `String::from_utf8_lossy`: the text that the bytes stand for in UTF-8, where they are valid;
/// else some text that depends on the bytes alone.
#[verifier::external_body]
fn from_utf8_lossy(bytes: &[u8]) -> (r: String)
    ensures
        r@ == utf8_lossy(bytes@),
        valid_utf8(bytes@) ==> r@ == decode_utf8(bytes@),
{
    String::from_utf8_lossy(bytes).into_owned()
}

/// `std::str::from_utf8`: whether the bytes are valid UTF-8.
#[verifier::external_body]
pub(crate) fn is_utf8(bytes: &[u8]) -> (r: bool)
    ensures
        r == valid_utf8(bytes@),
{
    std::str::from_utf8(bytes).is_ok()
}

// ---------------------------------------------------------------------------
// The header
// ---------------------------------------------------------------------------
/// `s` up to the first `;`.
pub open spec fn up_to_semicolon(s: Seq<char>) -> Seq<char> {
    match first_occurrence(s, seq![';'], 0) {
        Some(i) => s.take(i),
        None => s,
    }
}

/// What stands behind the first `charset=` of a content type, up to the next `;`, without the
/// white space around it.
pub open spec fn charset_value(content_type: Seq<char>) -> Option<Seq<char>> {
    match first_occurrence(ascii_lowered(content_type), "charset="@, 0) {
        Some(i) => Some(trimmed(up_to_semicolon(content_type.skip(i + 8)))),
        None => None,
    }
}

/// `s` starts and ends with `quote`.
pub open spec fn wrapped_in(s: Seq<char>, quote: char) -> bool {
    s.len() > 0 && s.first() == quote && s.last() == quote
}

/// `s` without the quotes around it. A single quotation mark has nothing to close it and stays.
pub open spec fn unquoted(s: Seq<char>) -> Seq<char> {
    if s.len() > 1 && (wrapped_in(s, '"') || wrapped_in(s, '\'')) {
        s.subrange(1, s.len() - 1)
    } else {
        s
    }
}

/// The label that a content type gives.
pub open spec fn header_label(content_type: Seq<char>) -> Option<Seq<char>> {
    match charset_value(content_type) {
        Some(v) => Some(unquoted(v)),
        None => None,
    }
}

fn charset_param(content_type: &str) -> (r: Option<String>)
    ensures
        opt_text(r) == charset_value(content_type@),
{
    let v = chars_of(content_type);
    let lower = lower_chars(&v);
    let needle = chars_of("charset=");
    proof {
        reveal_strlit("charset=");
        lemma_first_occurrence(lower@, needle@, 0);
    }
    match find_from(&lower, &needle, 0) {
        Some(i) => {
            proof {
                assert(occurs_at(lower@, needle@, i as int));
                assert(lower@.len() == v@.len());
                assert("charset="@.len() == 8);
                assert(i + 8 <= v.len());
            }
            let start = i + 8;
            let rest = chars_of(string_between(&v, start, v.len()).as_str());
            let mut semicolon: Vec<char> = Vec::new();
            semicolon.push(';');
            proof {
                assert(rest@ =~= content_type@.skip(i + 8));
                assert(semicolon@ =~= seq![';']);
                lemma_first_occurrence(rest@, semicolon@, 0);
            }
            let end = match find_from(&rest, &semicolon, 0) {
                Some(j) => j,
                None => rest.len(),
            };
            let value = string_between(&rest, 0, end);
            proof {
                assert(value@ =~= up_to_semicolon(rest@));
            }
            Some(trim(value.as_str()))
        },
        None => None,
    }
}

/// The label that a content type gives.
pub fn label_in_header(content_type: &str) -> (r: Option<String>)
    ensures
        opt_text(r) == header_label(content_type@),
{
    match charset_param(content_type) {
        Some(value) => {
            let v = chars_of(value.as_str());
            let n = v.len();
            if n > 1 && ((v[0] == '"' && v[n - 1] == '"') || (v[0] == '\'' && v[n - 1] == '\'')) {
                Some(string_between(&v, 1, n - 1))
            } else {
                Some(value)
            }
        },
        None => None,
    }
}

// ---------------------------------------------------------------------------
// The choice
// ---------------------------------------------------------------------------
/// The label that the groups of a match give: the first that took part, else none.
pub open spec fn group_label(groups: Option<(Option<Seq<char>>, Option<Seq<char>>)>) -> Option<
    Seq<char>,
> {
    match groups {
        Some((Some(a), _)) => Some(a),
        Some((None, Some(b))) => Some(b),
        _ => None,
    }
}

/// The label that the groups of a match give.
pub fn label_in_groups(groups: Option<(Option<String>, Option<String>)>) -> (r: Option<String>)
    ensures
        opt_text(r) == group_label(
            match groups {
                Some(g) => Some((opt_text(g.0), opt_text(g.1))),
                None => None,
            },
        ),
{
    match groups {
        Some((Some(a), _)) => Some(a),
        Some((None, Some(b))) => Some(b),
        _ => None,
    }
}

/// The encoding that a label stands for; an empty label stands for none.
pub open spec fn known_encoding(label: Option<Seq<char>>) -> Option<Seq<char>> {
    match label {
        Some(l) => if l.len() > 0 {
            encoding_for_label(l)
        } else {
            None
        },
        None => None,
    }
}

fn look_up(label: Option<String>) -> (r: Option<String>)
    ensures
        opt_text(r) == known_encoding(opt_text(label)),
        r matches Some(name) ==> encoding_for_label(name@) == Some(name@),
{
    match label {
        Some(l) => if l.as_str().is_empty() {
            None
        } else {
            for_label(l.as_str())
        },
        None => None,
    }
}

/// The first encoding that is there: the one of the header, the one of the page, or UTF-8.
pub open spec fn preferred(header: Option<Seq<char>>, page: Option<Seq<char>>) -> Seq<char> {
    match (header, page) {
        (Some(name), _) => name,
        (None, Some(name)) => name,
        (None, None) => "UTF-8"@,
    }
}

/// Picks the encoding of the header, else the one of the page, else UTF-8.
pub fn pick_encoding(header: Option<String>, page: Option<String>) -> (r: String)
    ensures
        r@ == preferred(opt_text(header), opt_text(page)),
{
    match (header, page) {
        (Some(name), _) => name,
        (None, Some(name)) => name,
        (None, None) => "UTF-8".to_string(),
    }
}

/// The part of a page in which its declaration is looked for.
pub open spec fn head(body: Seq<u8>) -> Seq<u8> {
    if body.len() < 4096 {
        body
    } else {
        body.take(4096)
    }
}

/// The text in which a declaration is looked for: the head read as UTF-8, as far as it is that.
pub open spec fn head_text(body: Seq<u8>) -> Seq<char> {
    if valid_utf8(head(body)) {
        decode_utf8(head(body))
    } else {
        utf8_lossy(head(body))
    }
}

/// The encoding that a page declares in its head.
pub open spec fn page_encoding(body: Seq<u8>) -> Option<Seq<char>> {
    known_encoding(group_label(declaration(head_text(body), 0)))
}

/// The encoding of a page: the one that its header gives, else the one that it declares, else
/// UTF-8.
pub open spec fn detected(content_type: Seq<char>, body: Seq<u8>) -> Seq<char> {
    preferred(known_encoding(header_label(content_type)), page_encoding(body))
}

/// Detects the encoding of a page from its content type and its first bytes.
pub fn detect_encoding(content_type: &str, body: &[u8]) -> (r: String)
    ensures
        r@ == detected(content_type@, body@),
        known_encoding(header_label(content_type@)) is None && valid_utf8(head(body@)) ==> r@
            == preferred(
            None,
            known_encoding(group_label(declaration(decode_utf8(head(body@)), 0))),
        ),
        r@ == "UTF-8"@ || encoding_for_label(r@) is Some,
{
    let header = look_up(label_in_header(content_type));
    let page = if header.is_none() {
        let n = if body.len() < 4096 {
            body.len()
        } else {
            4096
        };
        let first = slice_subrange(body, 0, n);
        proof {
            assert(first@ =~= head(body@));
        }
        let text = from_utf8_lossy(first);
        look_up(label_in_groups(first_groups(META_CHARSET, text.as_str())))
    } else {
        None
    };
    pick_encoding(header, page)
}

/// The text of a page. Bytes that are valid UTF-8 are read as UTF-8, whatever the page declares.
pub open spec fn page_source(content_type: Seq<char>, body: Seq<u8>) -> Seq<char> {
    if valid_utf8(body) {
        decode_utf8(body)
    } else {
        decoded(detected(content_type, body), body)
    }
}

/// Reads the text of a page.
pub fn decode_page(content_type: &str, body: &[u8]) -> (r: String)
    requires
        valid_utf8(body@) || decodable(body@),
    ensures
        r@ == page_source(content_type@, body@),
{
    if is_utf8(body) {
        from_utf8_lossy(body)
    } else {
        let encoding = detect_encoding(content_type, body);
        decode(encoding.as_str(), body)
    }
}

// ---------------------------------------------------------------------------
// Laws
// ---------------------------------------------------------------------------
/// A page in valid UTF-8 reads the same whatever content type it comes with.
pub proof fn lemma_mislabelled_utf8(content_type: Seq<char>, other: Seq<char>, body: Seq<u8>)
    requires
        valid_utf8(body),
    ensures
        page_source(content_type, body) == page_source(other, body),
        page_source(content_type, body) == decode_utf8(body),
{
}

/// A text sent as UTF-8 comes back as it was, whatever content type it comes with.
pub proof fn lemma_utf8_round_trip(content_type: Seq<char>, text: Seq<char>)
    ensures
        page_source(content_type, encode_utf8(text)) == text,
{
    encode_utf8_valid_utf8(text);
    encode_utf8_decode_utf8(text);
}

/// The header goes before the page, and the page before UTF-8: each is taken where those before it
/// give no label that stands for an encoding.
pub proof fn lemma_encoding_priority(content_type: Seq<char>, body: Seq<u8>)
    ensures
        match (known_encoding(header_label(content_type)), page_encoding(body)) {
            (Some(name), _) => detected(content_type, body) == name,
            (None, Some(name)) => detected(content_type, body) == name,
            (None, None) => detected(content_type, body) == "UTF-8"@,
        },
{
}

/// Whatever label the header gives, as long as it stands for an encoding, that is the encoding.
pub proof fn lemma_header_decides(
    content_type: Seq<char>,
    body: Seq<u8>,
    label: Seq<char>,
    name: Seq<char>,
)
    requires
        header_label(content_type) == Some(label),
        label.len() > 0,
        encoding_for_label(label) == Some(name),
    ensures
        detected(content_type, body) == name,
        !valid_utf8(body) ==> page_source(content_type, body) == decoded(name, body),
{
}

/// The header gives no label that stands for an encoding.
pub open spec fn header_is_silent(content_type: Seq<char>) -> bool {
    header_label(content_type) matches Some(label) ==> label.len() == 0 || encoding_for_label(
        label,
    ) is None
}

/// The label that a text declares, in the one way or in the other.
pub open spec fn declares(text: Seq<char>, label: Seq<char>) -> bool {
    match declaration(text, 0) {
        Some((Some(a), _)) => a == label,
        Some((None, Some(b))) => b == label,
        _ => false,
    }
}

/// Where the header is silent, the page decides: whatever label it declares in its first bytes, as
/// long as it stands for an encoding, that is the encoding.
pub proof fn lemma_page_decides(
    content_type: Seq<char>,
    body: Seq<u8>,
    label: Seq<char>,
    name: Seq<char>,
)
    requires
        header_is_silent(content_type),
        declares(head_text(body), label),
        label.len() > 0,
        encoding_for_label(label) == Some(name),
    ensures
        detected(content_type, body) == name,
        !valid_utf8(body) ==> page_source(content_type, body) == decoded(name, body),
{
}

/// Where neither the header nor the page gives a label that stands for an encoding, it is UTF-8.
pub proof fn lemma_utf8_is_the_rest(content_type: Seq<char>, body: Seq<u8>)
    requires
        header_is_silent(content_type),
        forall|label: Seq<char>| #[trigger]
            declares(head_text(body), label) ==> label.len() == 0 || encoding_for_label(label)
                is None,
    ensures
        detected(content_type, body) == "UTF-8"@,
        !valid_utf8(body) ==> page_source(content_type, body) == decoded("UTF-8"@, body),
{
    if let Some(groups) = declaration(head_text(body), 0) {
        if let Some(a) = groups.0 {
            assert(declares(head_text(body), a));
        } else if let Some(b) = groups.1 {
            assert(declares(head_text(body), b));
        }
    }
}

/// The page declares in its first 4096 bytes; a shorter page, in all of them.
pub proof fn lemma_first_bytes(body: Seq<u8>)
    ensures
        body.len() <= 4096 && valid_utf8(body) ==> head_text(body) == decode_utf8(body),
        body.len() > 4096 && valid_utf8(body.take(4096)) ==> head_text(body) == decode_utf8(
            body.take(4096),
        ),
        body.len() <= 4096 && !valid_utf8(body) ==> head_text(body) == utf8_lossy(body),
        body.len() > 4096 && !valid_utf8(body.take(4096)) ==> head_text(body) == utf8_lossy(
            body.take(4096),
        ),
{
    if body.len() == 4096 {
        assert(body.take(4096) =~= body);
    }
}

/// `key` is `charset=`, its letters in either case.
pub open spec fn is_charset_key(key: Seq<char>) -> bool {
    ascii_lowered(key) == seq!['c', 'h', 'a', 'r', 's', 'e', 't', '=']
}

/// A content type gives the label behind `charset=`, up to the next semicolon and without the
/// white space around it; quotes around it are taken off.
pub proof fn lemma_label_of_header(
    before: Seq<char>,
    key: Seq<char>,
    left: Seq<char>,
    label: Seq<char>,
    right: Seq<char>,
    after: Seq<char>,
)
    requires
        !before.contains('='),
        is_charset_key(key),
        is_blank(left),
        is_blank(right),
        has_clean_ends(label),
        !label.contains(';'),
        after.len() > 0 ==> after[0] == ';',
    ensures
        ({
            let given = header_label(before + key + left + label + right + after);
            let quoted = label.len() >= 2 && (label[0] == '"' || label[0] == '\'')
                && label[label.len() - 1] == label[0];
            if quoted {
                given == Some(label.subrange(1, label.len() - 1))
            } else {
                given == Some(label)
            }
        }),
{
    reveal_strlit("charset=");
    let needle = "charset="@;
    assert(needle =~= seq!['c', 'h', 'a', 'r', 's', 'e', 't', '=']);
    let s = before + key + left + label + right + after;
    let lower = ascii_lowered(s);
    let n = before.len() as int;
    assert(key.len() == 8) by {
        assert(ascii_lowered(key).len() == 8);
    }
    assert(lower.subrange(n, n + 8) =~= needle) by {
        assert forall|k: int| 0 <= k < 8 implies lower[n + k] == needle[k] by {
            assert(s[n + k] == key[k]);
            assert(ascii_lowered(key)[k] == needle[k]);
        }
    }
    assert(occurs_at(lower, needle, n));
    lemma_first_occurrence(lower, needle, 0);
    let i = first_occurrence(lower, needle, 0)->0;
    if i < n {
        assert(lower.subrange(i, i + 8)[7] == '=');
        assert(lower[i + 7] == '=');
        if i + 7 < n {
            assert(s[i + 7] == before[i + 7]);
            assert(before.contains(before[i + 7]));
        } else {
            assert(s[i + 7] == key[i + 7 - n]);
            assert(ascii_lowered(key)[i + 7 - n] == needle[i + 7 - n]);
        }
    }
    assert(i == n);
    let value = left + label + right;
    let rest = s.skip(n + 8);
    assert(rest =~= value + after);
    lemma_first_occurrence(rest, seq![';'], 0);
    assert forall|k: int| 0 <= k < value.len() implies value[k] != ';' by {
        if k < left.len() {
            assert(value[k] == left[k]);
        } else if k < left.len() + label.len() {
            assert(value[k] == label[k - left.len()]);
            assert(label.contains(label[k - left.len()]));
        } else {
            assert(value[k] == right[k - left.len() - label.len()]);
        }
    }
    if after.len() > 0 {
        let m = value.len() as int;
        assert(rest.subrange(m, m + 1) =~= seq![';']);
        assert(occurs_at(rest, seq![';'], m));
    }
    if let Some(j) = first_occurrence(rest, seq![';'], 0) {
        assert(rest.subrange(j, j + 1)[0] == ';');
        assert(rest[j] == ';');
        if j < value.len() {
            assert(rest[j] == value[j]);
        }
    }
    assert(up_to_semicolon(rest) =~= value);
    lemma_trimmed_core(left, label, right);
}

/// A content type without `charset=` gives no label.
pub proof fn lemma_no_label(content_type: Seq<char>)
    requires
        !occurs(ascii_lowered(content_type), "charset="@),
    ensures
        header_label(content_type) is None,
        header_is_silent(content_type),
{
    lemma_first_occurrence(ascii_lowered(content_type), "charset="@, 0);
    if let Some(i) = first_occurrence(ascii_lowered(content_type), "charset="@, 0) {
        assert(occurs_at(ascii_lowered(content_type), "charset="@, i));
    }
}

} // verus!
