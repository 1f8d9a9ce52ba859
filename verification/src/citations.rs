//! Citation markers and the cleaning of the text that the search service answers with.

use vstd::prelude::*;
use vstd::string::*;

use crate::patterns::is_private_use;
use crate::patterns::lemma_line_number_end;
use crate::patterns::lemma_line_number_found;
use crate::patterns::lemma_line_number_moved;
use crate::patterns::lemma_line_numbers_moved;
use crate::patterns::lemma_no_line_number;
use crate::patterns::lemma_no_word_limit;
use crate::patterns::lemma_word_limit_end;
use crate::patterns::lemma_word_limit_removed;
use crate::patterns::line_number;
use crate::patterns::line_number_end;
use crate::patterns::line_numbers_removed;
use crate::patterns::replace_all;
use crate::patterns::replace_cites;
use crate::patterns::without_private_use;
use crate::patterns::word_limit_end;
use crate::patterns::word_limits_replaced;
use crate::patterns::CITE;
use crate::patterns::LINE_NUMBER;
use crate::patterns::PRIVATE_USE;
use crate::patterns::WORD_LIMIT;
use crate::text::first_occurrence;
use crate::text::has_clean_ends;
use crate::text::is_blank;
use crate::text::is_white_space;
use crate::text::lemma_blank_trimmed;
use crate::text::lemma_first_occurrence;
use crate::text::lemma_replaced_absent;
use crate::text::lemma_replaced_from;
use crate::text::lemma_replaced_one;
use crate::text::lemma_replaced_parts;
use crate::text::lemma_trimmed;
use crate::text::lemma_trimmed_core;
use crate::text::occurs;
use crate::text::occurs_at;
use crate::text::replace;
use crate::text::replaced;
use crate::text::same;
use crate::text::trim;
use crate::text::trimmed;

verus! {

/// The title and the domain of each reference.
pub struct Refs {
    entries: Vec<(String, (String, String))>,
}

/// The map that a list of references makes; a later entry takes the place of an earlier one.
pub closed spec fn entries_view(s: Seq<(String, (String, String))>) -> Map<
    Seq<char>,
    (Seq<char>, Seq<char>),
>
    decreases s.len(),
{
    if s.len() == 0 {
        Map::empty()
    } else {
        entries_view(s.drop_last()).insert(s.last().0@, (s.last().1.0@, s.last().1.1@))
    }
}

impl View for Refs {
    type V = Map<Seq<char>, (Seq<char>, Seq<char>)>;

    closed spec fn view(&self) -> Map<Seq<char>, (Seq<char>, Seq<char>)> {
        entries_view(self.entries@)
    }
}

impl Refs {
    /// No reference.
    pub fn new() -> (r: Refs)
        ensures
            r@ == Map::<Seq<char>, (Seq<char>, Seq<char>)>::empty(),
    {
        Refs { entries: Vec::new() }
    }

    /// Notes the title and the domain of a reference.
    pub fn insert(&mut self, id: String, value: (String, String))
        ensures
            final(self)@ == old(self)@.insert(id@, (value.0@, value.1@)),
    {
        let ghost before = self.entries@;
        self.entries.push((id, value));
        proof {
            assert(self.entries@.drop_last() =~= before);
        }
    }

    /// The title and the domain of a reference.
    pub fn get(&self, id: &str) -> (r: Option<&(String, String)>)
        ensures
            match r {
                Some(v) => self@.dom().contains(id@) && self@[id@] == (v.0@, v.1@),
                None => !self@.dom().contains(id@),
            },
    {
        let mut n: usize = self.entries.len();
        proof {
            assert(self.entries@.take(n as int) =~= self.entries@);
        }
        while n > 0
            invariant
                n <= self.entries.len(),
                self@.dom().contains(id@) == entries_view(
                    self.entries@.take(n as int),
                ).dom().contains(id@),
                self@.dom().contains(id@) ==> self@[id@] == entries_view(
                    self.entries@.take(n as int),
                )[id@],
            decreases n,
        {
            proof {
                assert(self.entries@.take(n as int).drop_last() =~= self.entries@.take(n - 1));
            }
            if same(self.entries[n - 1].0.as_str(), id) {
                return Some(&self.entries[n - 1].1);
            }
            n = n - 1;
        }
        None
    }
}

/// What a marker that cites `inner` becomes: nothing where it cites nothing, else the reference
/// in brackets, with its title and its domain as far as they are known.
pub open spec fn cite_text(
    inner: Seq<char>,
    refs: Map<Seq<char>, (Seq<char>, Seq<char>)>,
) -> Seq<char> {
    let id = trimmed(inner);
    if id.len() == 0 {
        Seq::empty()
    } else if !refs.dom().contains(id) {
        " ["@ + id + "]"@
    } else if refs[id].1.len() == 0 {
        " ["@ + id + ": "@ + refs[id].0 + "]"@
    } else {
        " ["@ + id + ": "@ + refs[id].0 + " → "@ + refs[id].1 + "]"@
    }
}

/// What a marker that cites `inner` becomes.
pub fn cite_label(inner: &str, refs: &Refs) -> (r: String)
    ensures
        r@ == cite_text(inner@, refs@),
{
    let id = trim(inner);
    if id.as_str().is_empty() {
        return String::new();
    }
    let mut out = " [".to_string();
    out.append(id.as_str());
    if let Some(entry) = refs.get(id.as_str()) {
        out.append(": ");
        out.append(entry.0.as_str());
        if !entry.1.as_str().is_empty() {
            out.append(" → ");
            out.append(entry.1.as_str());
        }
    }
    out.append("]");
    out
}

/// How a citation marker starts.
pub open spec fn cite_open() -> Seq<char> {
    seq!['\u{e200}', 'c', 'i', 't', 'e', '\u{e202}']
}

/// How a citation marker ends.
pub open spec fn cite_close() -> Seq<char> {
    seq!['\u{e201}']
}

/// `text` with each marker, read from the left, turned into its label. A marker runs from its
/// start to the first end after it.
pub open spec fn cites_rewritten(
    text: Seq<char>,
    refs: Map<Seq<char>, (Seq<char>, Seq<char>)>,
) -> Seq<char>
    decreases text.len(),
{
    if text.len() == 0 {
        text
    } else {
        proof {
            lemma_first_occurrence(text, cite_close(), 6);
        }
        match (occurs_at(text, cite_open(), 0), first_occurrence(text, cite_close(), 6)) {
            (true, Some(j)) => cite_text(text.subrange(6, j), refs) + cites_rewritten(
                text.skip(j + 1),
                refs,
            ),
            _ => seq![text.first()] + cites_rewritten(text.skip(1), refs),
        }
    }
}

/// `text` with its markers turned into labels, and without any other private use character.
pub open spec fn markers_rewritten(
    text: Seq<char>,
    refs: Map<Seq<char>, (Seq<char>, Seq<char>)>,
) -> Seq<char> {
    without_private_use(cites_rewritten(text, refs))
}

/// Turns the citation markers into labels and drops every other private use character.
pub fn rewrite_markers(text: &str, refs: &Refs) -> (r: String)
    ensures
        r@ == markers_rewritten(text@, refs@),
{
    let s = replace_cites(CITE, text, refs);
    proof {
        reveal_strlit("");
    }
    replace_all(PRIVATE_USE, s.as_str(), "")
}

/// `text` with three line feeds made two, and without white space at either end.
pub open spec fn tidied(text: Seq<char>) -> Seq<char> {
    trimmed(replaced(text, "\n\n\n"@, "\n\n"@))
}

/// Makes three line feeds two and removes the white space at either end.
pub fn tidy(text: &str) -> (r: String)
    ensures
        r@ == tidied(text@),
{
    proof {
        reveal_strlit("\n\n\n");
    }
    trim(replace(text, "\n\n\n", "\n\n").as_str())
}

/// The cleaned text: markers turned into labels, word limits and line numbers removed, and the
/// rest tidied.
pub open spec fn cleaned(
    text: Seq<char>,
    refs: Map<Seq<char>, (Seq<char>, Seq<char>)>,
) -> Seq<char> {
    let marked = markers_rewritten(text, refs);
    let unlimited = word_limits_replaced(marked, Seq::empty());
    tidied(line_numbers_removed(unlimited, 0))
}

/// Cleans the text that the search service answers with. No private use character is left, and
/// no white space at either end.
pub fn clean_output(text: &str, refs: &Refs) -> (r: String)
    ensures
        r@ == cleaned(text@, refs@),
        forall|i: int| 0 <= i < r@.len() ==> !is_private_use(#[trigger] r@[i]),
        r@.len() > 0 ==> !is_white_space(r@.first()) && !is_white_space(r@.last()),
{
    let marked = rewrite_markers(text, refs);
    proof {
        reveal_strlit("");
        assert(""@ =~= Seq::<char>::empty());
    }
    let unlimited = replace_all(WORD_LIMIT, marked.as_str(), "");
    let unnumbered = replace_all(LINE_NUMBER, unlimited.as_str(), "$1");
    let out = tidy(unnumbered.as_str());
    proof {
        lemma_cleaned(text@, refs@);
    }
    out
}

// ---------------------------------------------------------------------------
// Laws
// ---------------------------------------------------------------------------
proof fn lemma_filter_holds(s: Seq<char>, p: spec_fn(char) -> bool, c: char)
    requires
        s.filter(p).contains(c),
    ensures
        p(c),
{
    s.lemma_filter_pred(p, s.filter(p).index_of(c));
}

proof fn lemma_unlimited_from(s: Seq<char>, c: char)
    requires
        word_limits_replaced(s, Seq::empty()).contains(c),
    ensures
        s.contains(c),
    decreases s.len(),
{
    if s.len() > 0 {
        lemma_word_limit_end(s);
        let (n, head) = match word_limit_end(s) {
            Some(j) => (j, Seq::empty()),
            None => (1int, seq![s.first()]),
        };
        let rest = word_limits_replaced(s.skip(n), Seq::empty());
        let i = (head + rest).index_of(c);
        if i < head.len() {
            assert(s[0] == c);
        } else {
            assert(rest[i - head.len()] == c);
            lemma_unlimited_from(s.skip(n), c);
            let k = s.skip(n).index_of(c);
            assert(s[n + k] == c);
        }
    }
}

proof fn lemma_unnumbered_from(s: Seq<char>, i: int, c: char)
    requires
        line_numbers_removed(s, i).contains(c),
    ensures
        s.contains(c),
    decreases s.len() - i,
{
    if 0 <= i < s.len() {
        lemma_line_number_end(s, i);
        lemma_line_number_end(s, i + 1);
        let (n, head) = match (
            i == 0,
            line_number_end(s, i),
            is_white_space(s[i]),
            line_number_end(s, i + 1),
        ) {
            (true, Some(j), _, _) => (j, Seq::empty()),
            (_, _, true, Some(j)) => (j, seq![s[i]]),
            _ => (i + 1, seq![s[i]]),
        };
        let rest = line_numbers_removed(s, n);
        assert(line_numbers_removed(s, i) =~= head + rest);
        let k = (head + rest).index_of(c);
        if k < head.len() {
            assert(s[i] == c);
        } else {
            assert(rest[k - head.len()] == c);
            lemma_unnumbered_from(s, n, c);
        }
    }
}

/// A cleaned text holds no private use character, and no white space at either end.
pub proof fn lemma_cleaned(text: Seq<char>, refs: Map<Seq<char>, (Seq<char>, Seq<char>)>)
    ensures
        forall|i: int|
            0 <= i < cleaned(text, refs).len() ==> !is_private_use(
                #[trigger] cleaned(text, refs)[i],
            ),
        cleaned(text, refs).len() > 0 ==> !is_white_space(cleaned(text, refs).first())
            && !is_white_space(cleaned(text, refs).last()),
{
    reveal_strlit("\n\n");
    let out = cleaned(text, refs);
    let marked = markers_rewritten(text, refs);
    let unlimited = word_limits_replaced(marked, Seq::empty());
    let unnumbered = line_numbers_removed(unlimited, 0);
    let shortened = replaced(unnumbered, "\n\n\n"@, "\n\n"@);
    lemma_trimmed(shortened);
    assert forall|i: int| 0 <= i < out.len() implies !is_private_use(#[trigger] out[i]) by {
        let c = out[i];
        let (a, b) = choose|a: int, b: int|
            0 <= a <= b <= shortened.len() && out == #[trigger] shortened.subrange(a, b);
        assert(shortened[a + i] == c);
        lemma_replaced_from(unnumbered, "\n\n\n"@, "\n\n"@, c);
        if unnumbered.contains(c) {
            lemma_unnumbered_from(unlimited, 0, c);
            lemma_unlimited_from(marked, c);
            lemma_filter_holds(cites_rewritten(text, refs), |d: char| !is_private_use(d), c);
        }
    }
}

/// A text without the start of a marker stays as it is.
pub proof fn lemma_no_marker(text: Seq<char>, refs: Map<Seq<char>, (Seq<char>, Seq<char>)>)
    requires
        !occurs(text, cite_open()),
    ensures
        cites_rewritten(text, refs) == text,
    decreases text.len(),
{
    if text.len() > 0 {
        assert(!occurs_at(text, cite_open(), 0));
        lemma_occurs_tail(text, cite_open());
        lemma_no_marker(text.skip(1), refs);
        assert(seq![text.first()] + text.skip(1) =~= text);
    }
}

proof fn lemma_occurs_tail(text: Seq<char>, needle: Seq<char>)
    requires
        !occurs(text, needle),
        text.len() > 0,
    ensures
        !occurs(text.skip(1), needle),
{
    if occurs(text.skip(1), needle) {
        let i = choose|i: int| occurs_at(text.skip(1), needle, i);
        assert(text.skip(1).subrange(i, i + needle.len()) =~= text.subrange(
            i + 1,
            i + 1 + needle.len(),
        ));
        assert(occurs_at(text, needle, i + 1));
    }
}

/// The first marker of a text becomes its label, and what follows it is rewritten in turn.
pub proof fn lemma_marker_rewritten(
    before: Seq<char>,
    inner: Seq<char>,
    after: Seq<char>,
    refs: Map<Seq<char>, (Seq<char>, Seq<char>)>,
)
    requires
        !occurs(before, cite_open()),
        !inner.contains('\u{e201}'),
    ensures
        cites_rewritten(before + cite_open() + inner + cite_close() + after, refs) == before
            + cite_text(inner, refs) + cites_rewritten(after, refs),
    decreases before.len(),
{
    let text = before + cite_open() + inner + cite_close() + after;
    lemma_first_occurrence(text, cite_close(), 6);
    if before.len() == 0 {
        let end = 6 + inner.len() as int;
        assert(text.subrange(0, 6) =~= cite_open());
        assert(text.subrange(end, end + 1) =~= cite_close());
        assert(occurs_at(text, cite_close(), end));
        let j = first_occurrence(text, cite_close(), 6)->0;
        if j < end {
            assert(text.subrange(j, j + 1)[0] == '\u{e201}');
            assert(inner[j - 6] == '\u{e201}');
        }
        assert(j == end);
        assert(text.subrange(6, j) =~= inner);
        assert(text.skip(j + 1) =~= after);
        assert(before + cite_text(inner, refs) =~= cite_text(inner, refs));
    } else {
        if occurs_at(text, cite_open(), 0) {
            assert forall|k: int| 0 <= k < 6 implies text[k] == cite_open()[k] by {
                assert(text.subrange(0, 6)[k] == cite_open()[k]);
            }
            if before.len() >= 6 {
                assert(before.subrange(0, 6) =~= cite_open());
                assert(occurs_at(before, cite_open(), 0));
            } else {
                assert(text[before.len() as int] == '\u{e200}');
            }
        }
        let rest = before.skip(1);
        lemma_occurs_tail(before, cite_open());
        lemma_marker_rewritten(rest, inner, after, refs);
        assert(text.skip(1) =~= rest + cite_open() + inner + cite_close() + after);
        assert(seq![text.first()] + (rest + cite_text(inner, refs) + cites_rewritten(after, refs))
            =~= before + cite_text(inner, refs) + cites_rewritten(after, refs));
    }
}

/// A text with one marker, and no other private use character, keeps the text around the marker
/// and gets the label in its place; so does what is cleaned.
pub proof fn lemma_single_marker(
    before: Seq<char>,
    inner: Seq<char>,
    after: Seq<char>,
    refs: Map<Seq<char>, (Seq<char>, Seq<char>)>,
)
    requires
        without_private_use(before) == before,
        without_private_use(after) == after,
        without_private_use(cite_text(inner, refs)) == cite_text(inner, refs),
        !inner.contains('\u{e201}'),
    ensures
        markers_rewritten(before + cite_open() + inner + cite_close() + after, refs) == before
            + cite_text(inner, refs) + after,
        cleaned(before + cite_open() + inner + cite_close() + after, refs) == tidied(
            line_numbers_removed(
                word_limits_replaced(before + cite_text(inner, refs) + after, Seq::empty()),
                0,
            ),
        ),
{
    let p = |c: char| !is_private_use(c);
    lemma_plain_has_no_marker(before);
    lemma_plain_has_no_marker(after);
    lemma_marker_rewritten(before, inner, after, refs);
    lemma_no_marker(after, refs);
    Seq::filter_distributes_over_add(before + cite_text(inner, refs), after, p);
    Seq::filter_distributes_over_add(before, cite_text(inner, refs), p);
}

proof fn lemma_plain_has_no_marker(s: Seq<char>)
    requires
        without_private_use(s) == s,
    ensures
        !occurs(s, cite_open()),
{
    if occurs(s, cite_open()) {
        let i = choose|i: int| occurs_at(s, cite_open(), i);
        assert(s.subrange(i, i + 6)[0] == '\u{e200}');
        assert(s[i] == '\u{e200}');
        s.lemma_filter_pred(|c: char| !is_private_use(c), i);
    }
}

// ---------------------------------------------------------------------------
// Laws of the label and of the cleaned text
// ---------------------------------------------------------------------------
/// A marker that cites a known reference says which it is, its whole title and, where there is
/// one, its whole domain, however long they are.
pub proof fn lemma_label_of_known(
    inner: Seq<char>,
    title: Seq<char>,
    domain: Seq<char>,
    refs: Map<Seq<char>, (Seq<char>, Seq<char>)>,
)
    requires
        trimmed(inner).len() > 0,
    ensures
        ({
            let id = trimmed(inner);
            let label = cite_text(inner, refs.insert(id, (title, domain)));
            &&& domain.len() > 0 ==> label == " ["@ + id + ": "@ + title + " → "@ + domain + "]"@
            &&& domain.len() == 0 ==> label == " ["@ + id + ": "@ + title + "]"@
            &&& occurs(label, id)
            &&& occurs(label, title)
            &&& occurs(label, domain)
        }),
{
    let id = trimmed(inner);
    let label = cite_text(inner, refs.insert(id, (title, domain)));
    let first = " ["@.len() as int;
    let second = first + id.len() + ": "@.len();
    let third = second + title.len() + " → "@.len();
    assert(label.subrange(first, first + id.len()) =~= id);
    assert(occurs_at(label, id, first));
    assert(label.subrange(second, second + title.len()) =~= title);
    assert(occurs_at(label, title, second));
    if domain.len() > 0 {
        assert(label.subrange(third, third + domain.len()) =~= domain);
        assert(occurs_at(label, domain, third));
    } else {
        assert(label.subrange(0, 0) =~= domain);
        assert(occurs_at(label, domain, 0));
    }
}

/// A marker that cites an unknown reference keeps it; one that cites nothing leaves nothing.
pub proof fn lemma_label_of_unknown(
    inner: Seq<char>,
    refs: Map<Seq<char>, (Seq<char>, Seq<char>)>,
)
    ensures
        trimmed(inner).len() > 0 && !refs.dom().contains(trimmed(inner)) ==> cite_text(inner, refs)
            == " ["@ + trimmed(inner) + "]"@,
        is_blank(inner) ==> cite_text(inner, refs).len() == 0,
{
    lemma_blank_trimmed(inner);
}

/// The label of a reference depends on that reference alone.
pub proof fn lemma_label_alone(
    inner: Seq<char>,
    refs: Map<Seq<char>, (Seq<char>, Seq<char>)>,
    other: Seq<char>,
    entry: (Seq<char>, Seq<char>),
)
    requires
        other != trimmed(inner),
    ensures
        cite_text(inner, refs.insert(other, entry)) == cite_text(inner, refs),
{
}

proof fn lemma_cites_behind(
    a: Seq<char>,
    b: Seq<char>,
    refs: Map<Seq<char>, (Seq<char>, Seq<char>)>,
)
    requires
        without_private_use(a) == a,
    ensures
        cites_rewritten(a + b, refs) == a + cites_rewritten(b, refs),
        markers_rewritten(a + b, refs) == a + markers_rewritten(b, refs),
    decreases a.len(),
{
    lemma_cites_behind_plain(a, b, refs);
    let p = |c: char| !is_private_use(c);
    Seq::filter_distributes_over_add(a, cites_rewritten(b, refs), p);
}

proof fn lemma_cites_behind_plain(
    a: Seq<char>,
    b: Seq<char>,
    refs: Map<Seq<char>, (Seq<char>, Seq<char>)>,
)
    requires
        without_private_use(a) == a,
    ensures
        cites_rewritten(a + b, refs) == a + cites_rewritten(b, refs),
    decreases a.len(),
{
    let s = a + b;
    if a.len() == 0 {
        assert(s =~= b);
        assert(a + cites_rewritten(b, refs) =~= cites_rewritten(b, refs));
    } else {
        let p = |c: char| !is_private_use(c);
        a.lemma_filter_pred(p, 0);
        if occurs_at(s, cite_open(), 0) {
            assert(s.subrange(0, 6)[0] == '\u{e200}');
        }
        let rest = a.skip(1);
        lemma_plain_parts(a);
        assert(s.skip(1) =~= rest + b);
        lemma_cites_behind_plain(rest, b, refs);
        assert(seq![s.first()] + (rest + cites_rewritten(b, refs)) =~= a + cites_rewritten(
            b,
            refs,
        ));
    }
}

proof fn lemma_plain_parts(a: Seq<char>)
    requires
        without_private_use(a) == a,
        a.len() > 0,
    ensures
        without_private_use(a.skip(1)) == a.skip(1),
{
    let p = |c: char| !is_private_use(c);
    assert forall|i: int| 0 <= i < a.skip(1).len() implies p(#[trigger] a.skip(1)[i]) by {
        a.lemma_filter_pred(p, i + 1);
    }
    lemma_all_kept(a.skip(1), p);
}

proof fn lemma_all_kept(s: Seq<char>, p: spec_fn(char) -> bool)
    requires
        forall|i: int| 0 <= i < s.len() ==> p(#[trigger] s[i]),
    ensures
        s.filter(p) == s,
    decreases s.len(),
{
    reveal(Seq::filter);
    if s.len() > 0 {
        assert(forall|i: int| 0 <= i < s.len() - 1 ==> s.drop_last()[i] == s[i]);
        lemma_all_kept(s.drop_last(), p);
        assert(p(s[s.len() - 1]));
        assert(s.drop_last().push(s.last()) =~= s);
    }
}

/// No character of `s` is of the private use area.
pub open spec fn is_plain(s: Seq<char>) -> bool {
    forall|i: int| 0 <= i < s.len() ==> !('\u{e000}' <= (#[trigger] s[i]) <= '\u{f8ff}')
}

proof fn lemma_plain(s: Seq<char>)
    requires
        is_plain(s),
    ensures
        without_private_use(s) == s,
{
    lemma_all_kept(s, |c: char| !is_private_use(c));
}

/// Markers are rewritten one after the other: what stands before the first one stays, its label
/// follows without private use characters, and then comes what becomes of the rest.
pub proof fn lemma_markers_in_turn(
    before: Seq<char>,
    inner: Seq<char>,
    after: Seq<char>,
    refs: Map<Seq<char>, (Seq<char>, Seq<char>)>,
)
    requires
        is_plain(before),
        !inner.contains('\u{e201}'),
    ensures
        markers_rewritten(
            before + seq!['\u{e200}', 'c', 'i', 't', 'e', '\u{e202}'] + inner + seq!['\u{e201}']
                + after,
            refs,
        ) == before + cite_text(inner, refs).filter(|c: char| !('\u{e000}' <= c <= '\u{f8ff}'))
            + markers_rewritten(after, refs),
{
    lemma_plain(before);
    lemma_plain_has_no_marker(before);
    lemma_marker_rewritten(before, inner, after, refs);
    let p = |c: char| !is_private_use(c);
    let label = cite_text(inner, refs);
    Seq::filter_distributes_over_add(before + label, cites_rewritten(after, refs), p);
    Seq::filter_distributes_over_add(before, label, p);
    lemma_same_filter(label, p, |c: char| !('\u{e000}' <= c <= '\u{f8ff}'));
}

proof fn lemma_same_filter(s: Seq<char>, p: spec_fn(char) -> bool, q: spec_fn(char) -> bool)
    requires
        forall|c: char| #[trigger] p(c) == q(c),
    ensures
        s.filter(p) == s.filter(q),
    decreases s.len(),
{
    reveal(Seq::filter);
    if s.len() > 0 {
        lemma_same_filter(s.drop_last(), p, q);
        assert(p(s.last()) == q(s.last()));
    }
}

/// Cleaning sees a text only with its markers rewritten: two texts that agree in that are cleaned
/// to the same.
pub proof fn lemma_cleaned_by_markers(
    text: Seq<char>,
    refs: Map<Seq<char>, (Seq<char>, Seq<char>)>,
    other: Seq<char>,
    others: Map<Seq<char>, (Seq<char>, Seq<char>)>,
)
    requires
        markers_rewritten(text, refs) == markers_rewritten(other, others),
    ensures
        cleaned(text, refs) == cleaned(other, others),
{
}

/// A text that has nothing to clean stays as it is.
pub proof fn lemma_clean_text_kept(
    text: Seq<char>,
    refs: Map<Seq<char>, (Seq<char>, Seq<char>)>,
)
    requires
        is_plain(text),
        !text.contains('['),
        !text.contains('L'),
        !occurs(text, "\n\n\n"@),
        has_clean_ends(text),
    ensures
        cleaned(text, refs) == text,
{
    let none = Seq::<char>::empty();
    lemma_plain(text);
    lemma_cites_behind(text, none, refs);
    assert(text + none =~= text);
    assert(without_private_use(none) =~= none) by {
        reveal(Seq::filter);
    }
    assert(markers_rewritten(none, refs) =~= none);
    lemma_no_word_limit(text, none);
    assert(word_limits_replaced(none, none) =~= none);
    assert(word_limits_replaced(text, none) =~= text);
    lemma_no_line_number(text, 0, text.len() as int);
    assert(line_numbers_removed(text, 0) =~= text);
    lemma_replaced_absent(text, "\n\n\n"@, "\n\n"@);
    lemma_trimmed_core(none, text, none);
    assert(none + text + none =~= text);
}

/// A word limit leaves no trace.
pub proof fn lemma_word_limit_cleaned(
    before: Seq<char>,
    blank: Seq<char>,
    digits: Seq<char>,
    after: Seq<char>,
    refs: Map<Seq<char>, (Seq<char>, Seq<char>)>,
)
    requires
        is_plain(before),
        !before.contains('['),
        is_blank(blank),
        digits.len() > 0,
        forall|i: int| 0 <= i < digits.len() ==> '0' <= (#[trigger] digits[i]) <= '9',
    ensures
        cleaned(before + ("[wordlim:"@ + blank + digits + seq![']']) + after, refs) == cleaned(
            before + after,
            refs,
        ),
{
    let limit = "[wordlim:"@ + blank + digits + seq![']'];
    let rest = markers_rewritten(after, refs);
    lemma_plain_limit(blank, digits);
    lemma_cites_around(before, limit, after, refs);
    lemma_cites_around(before, Seq::empty(), after, refs);
    assert(before + Seq::empty() + after =~= before + after);
    assert(before + Seq::empty() + rest =~= before + rest);
    lemma_limit_between(before, blank, digits, rest);
}

proof fn lemma_cites_around(
    a: Seq<char>,
    x: Seq<char>,
    b: Seq<char>,
    refs: Map<Seq<char>, (Seq<char>, Seq<char>)>,
)
    requires
        is_plain(a),
        is_plain(x),
    ensures
        markers_rewritten(a + x + b, refs) == a + x + markers_rewritten(b, refs),
{
    lemma_plain(a);
    lemma_plain(x);
    lemma_cites_behind(a, x + b, refs);
    lemma_cites_behind(x, b, refs);
    assert(a + x + b =~= a + (x + b));
    assert(a + x + markers_rewritten(b, refs) =~= a + (x + markers_rewritten(b, refs)));
}

proof fn lemma_plain_limit(blank: Seq<char>, digits: Seq<char>)
    requires
        is_blank(blank),
        forall|i: int| 0 <= i < digits.len() ==> '0' <= (#[trigger] digits[i]) <= '9',
    ensures
        is_plain("[wordlim:"@ + blank + digits + seq![']']),
{
    reveal_strlit("[wordlim:");
    let limit = "[wordlim:"@ + blank + digits + seq![']'];
    assert forall|i: int| 0 <= i < limit.len() implies !('\u{e000}' <= (#[trigger] limit[i])
        <= '\u{f8ff}') by {
        if 9 <= i < 9 + blank.len() {
            assert(limit[i] == blank[i - 9]);
        } else if 9 + blank.len() <= i < 9 + blank.len() + digits.len() {
            assert(limit[i] == digits[i - 9 - blank.len()]);
        }
    }
}

proof fn lemma_limit_between(
    before: Seq<char>,
    blank: Seq<char>,
    digits: Seq<char>,
    rest: Seq<char>,
)
    requires
        !before.contains('['),
        is_blank(blank),
        digits.len() > 0,
        forall|i: int| 0 <= i < digits.len() ==> '0' <= (#[trigger] digits[i]) <= '9',
    ensures
        word_limits_replaced(
            before + ("[wordlim:"@ + blank + digits + seq![']']) + rest,
            Seq::empty(),
        ) == word_limits_replaced(before + rest, Seq::empty()),
{
    let limit = "[wordlim:"@ + blank + digits + seq![']'];
    lemma_no_word_limit(before, limit + rest);
    lemma_no_word_limit(before, rest);
    lemma_word_limit_removed(blank, digits, rest);
    assert(before + limit + rest =~= before + (limit + rest));
}

/// A line number behind white space leaves no trace, nor does one at the start.
pub proof fn lemma_line_number_cleaned(
    before: Seq<char>,
    digits: Seq<char>,
    pad: Seq<char>,
    after: Seq<char>,
    refs: Map<Seq<char>, (Seq<char>, Seq<char>)>,
)
    requires
        is_plain(before),
        !before.contains('['),
        !before.contains('L'),
        before.len() > 0 ==> is_white_space(before.last()),
        digits.len() > 0,
        forall|i: int| 0 <= i < digits.len() ==> '0' <= (#[trigger] digits[i]) <= '9',
        (pad.len() == 1 && is_white_space(pad[0])) || (pad.len() == 0 && (after.len() == 0
            || !is_white_space(after[0]))),
        after.len() > 0 ==> after[0] != 'L' && after[0] != '[' && !('\u{e000}' <= after[0]
            <= '\u{f8ff}'),
    ensures
        cleaned(before + (seq!['L'] + digits + seq![':'] + pad) + after, refs) == cleaned(
            before + after,
            refs,
        ),
{
    let number = line_number(digits, pad);
    let marked = markers_rewritten(after, refs);
    let rest = word_limits_replaced(marked, Seq::empty());
    lemma_plain_number(digits, pad);
    lemma_cites_around(before, number, after, refs);
    lemma_cites_around(before, Seq::empty(), after, refs);
    assert(before + Seq::empty() + after =~= before + after);
    assert(before + Seq::empty() + marked =~= before + marked);
    lemma_unlimited_behind(before, number, marked);
    lemma_first_kept(after, refs);
    lemma_number_between(before, digits, pad, rest);
}

proof fn lemma_plain_number(digits: Seq<char>, pad: Seq<char>)
    requires
        forall|i: int| 0 <= i < digits.len() ==> '0' <= (#[trigger] digits[i]) <= '9',
        pad.len() == 0 || (pad.len() == 1 && is_white_space(pad[0])),
    ensures
        is_plain(line_number(digits, pad)),
        !line_number(digits, pad).contains('['),
{
    let number = line_number(digits, pad);
    assert forall|i: int| 0 <= i < number.len() implies !('\u{e000}' <= (#[trigger] number[i])
        <= '\u{f8ff}') && number[i] != '[' by {
        if 1 <= i < 1 + digits.len() {
            assert(number[i] == digits[i - 1]);
        } else if i >= 2 + digits.len() {
            assert(number[i] == pad[0]);
        }
    }
}

proof fn lemma_unlimited_behind(a: Seq<char>, x: Seq<char>, b: Seq<char>)
    requires
        !a.contains('['),
        !x.contains('['),
    ensures
        word_limits_replaced(a + x + b, Seq::empty()) == a + x + word_limits_replaced(
            b,
            Seq::empty(),
        ),
        word_limits_replaced(a + b, Seq::empty()) == a + word_limits_replaced(b, Seq::empty()),
{
    lemma_no_word_limit(a, x + b);
    lemma_no_word_limit(x, b);
    lemma_no_word_limit(a, b);
    let rest = word_limits_replaced(b, Seq::empty());
    assert(a + x + b =~= a + (x + b));
    assert(a + x + rest =~= a + (x + rest));
}

proof fn lemma_number_between(
    before: Seq<char>,
    digits: Seq<char>,
    pad: Seq<char>,
    rest: Seq<char>,
)
    requires
        !before.contains('L'),
        before.len() > 0 ==> is_white_space(before.last()),
        digits.len() > 0,
        forall|i: int| 0 <= i < digits.len() ==> '0' <= (#[trigger] digits[i]) <= '9',
        (pad.len() == 1 && is_white_space(pad[0])) || (pad.len() == 0 && (rest.len() == 0
            || !is_white_space(rest[0]))),
        rest.len() > 0 ==> rest[0] != 'L',
    ensures
        line_numbers_removed(before + line_number(digits, pad) + rest, 0) == line_numbers_removed(
            before + rest,
            0,
        ),
{
    let number = line_number(digits, pad);
    let s = before + number + rest;
    let t = before + rest;
    let n = before.len() as int;
    let e = n + number.len() as int;
    lemma_line_number_found(before, digits, pad, rest);
    assert forall|k: int| 0 <= k < n implies s[k] != 'L' && t[k] != 'L' by {
        assert(s[k] == before[k] && t[k] == before[k]);
        assert(before.contains(before[k]));
    }
    if rest.len() > 0 {
        assert(t[n] == rest[0]);
    }
    if n == 0 {
        assert(t =~= rest);
        assert(number + rest =~= s);
        lemma_line_numbers_moved(number, seq![' '], rest, 0);
        lemma_from_start(rest);
    } else {
        let last = n - 1;
        lemma_no_line_number(s, 0, last);
        lemma_no_line_number(t, 0, n);
        assert(is_white_space(s[last]) && s[last] == before.last());
        assert(line_numbers_removed(s, last) == seq![s[last]] + line_numbers_removed(s, e));
        lemma_line_numbers_moved(before + number, before, rest, 0);
        assert(s.subrange(0, last) + (seq![s[last]] + line_numbers_removed(s, e)) =~= before
            + line_numbers_removed(s, e));
        assert(t.subrange(0, n) =~= before);
    }
}

/// A text that starts with no line number is treated at its start as behind other text.
#[verifier::spinoff_prover]
#[verifier::rlimit(40)]
proof fn lemma_from_start(rest: Seq<char>)
    requires
        rest.len() > 0 ==> rest[0] != 'L',
    ensures
        line_numbers_removed(seq![' '] + rest, 1) == line_numbers_removed(rest, 0),
{
    let x = seq![' '];
    let s = x + rest;
    if rest.len() > 0 {
        assert(s[1] == rest[0]);
        let y = seq![rest[0]];
        let tail = rest.skip(1);
        assert(y + tail =~= rest);
        assert((x + y) + tail =~= s);
        lemma_line_number_shifted(x, y, tail);
        lemma_line_number_end(rest, 1);
        assert(line_number_end(rest, 0) is None);
        match line_number_end(rest, 1) {
            Some(e) => {
                if is_white_space(rest[0]) {
                    lemma_line_numbers_moved(x + y, y, tail, e - 1);
                } else {
                    lemma_line_numbers_moved(x + y, y, tail, 0);
                }
            },
            None => {
                lemma_line_numbers_moved(x + y, y, tail, 0);
            },
        }
    }
}

proof fn lemma_line_number_shifted(x: Seq<char>, y: Seq<char>, tail: Seq<char>)
    requires
        x.len() == 1,
        y.len() == 1,
    ensures
        match (line_number_end((x + y) + tail, 2), line_number_end(y + tail, 1)) {
            (Some(a), Some(b)) => a == b + 1,
            (None, None) => true,
            _ => false,
        },
{
    lemma_line_number_moved(x + y, y, tail, 0);
}

/// A first character that nothing is done about stays the first.
proof fn lemma_first_kept(text: Seq<char>, refs: Map<Seq<char>, (Seq<char>, Seq<char>)>)
    requires
        text.len() > 0 ==> text[0] != '[' && !('\u{e000}' <= text[0] <= '\u{f8ff}'),
    ensures
        ({
            let rest = word_limits_replaced(markers_rewritten(text, refs), Seq::empty());
            &&& text.len() == 0 ==> rest.len() == 0
            &&& text.len() > 0 ==> rest.len() > 0 && rest[0] == text[0]
        }),
{
    let none = Seq::<char>::empty();
    if text.len() > 0 {
        let first = seq![text[0]];
        let tail = text.skip(1);
        assert(first + tail =~= text);
        lemma_plain(first);
        lemma_cites_behind(first, tail, refs);
        lemma_no_word_limit(first, markers_rewritten(tail, refs));
    } else {
        assert(without_private_use(text) =~= text) by {
            reveal(Seq::filter);
        }
    }
}

/// Three line feeds become two, where no further ones stand beside them.
pub proof fn lemma_three_line_feeds(before: Seq<char>, after: Seq<char>)
    requires
        before.len() > 0 ==> before.last() != '\n',
        after.len() > 0 ==> after[0] != '\n',
    ensures
        tidied(before + seq!['\n', '\n', '\n'] + after) == tidied(
            before + seq!['\n', '\n'] + after,
        ),
{
    reveal_strlit("\n\n\n");
    reveal_strlit("\n\n");
    let from = "\n\n\n"@;
    let to = "\n\n"@;
    assert(from =~= seq!['\n', '\n', '\n']);
    assert(to =~= seq!['\n', '\n']);
    lemma_feeds_apart(before, from, after);
    lemma_feeds_apart(before, to, after);
    lemma_replaced_one(from, to);
    assert(!occurs(to, from));
    lemma_replaced_absent(to, from, to);
}

proof fn lemma_feeds_apart(before: Seq<char>, feeds: Seq<char>, after: Seq<char>)
    requires
        before.len() > 0 ==> before.last() != '\n',
        after.len() > 0 ==> after[0] != '\n',
        feeds.len() > 0,
    ensures
        replaced(before + feeds + after, "\n\n\n"@, "\n\n"@) == replaced(
            before,
            "\n\n\n"@,
            "\n\n"@,
        ) + replaced(feeds, "\n\n\n"@, "\n\n"@) + replaced(after, "\n\n\n"@, "\n\n"@),
{
    reveal_strlit("\n\n\n");
    let from = "\n\n\n"@;
    let tail = feeds + after;
    assert(before + feeds + after =~= before + tail);
    assert forall|i: int| 0 <= i < before.len() < i + from.len() implies !#[trigger] occurs_at(
        before + tail,
        from,
        i,
    ) by {
        let k = before.len() - 1 - i;
        if occurs_at(before + tail, from, i) {
            assert((before + tail).subrange(i, i + from.len())[k] == from[k]);
            assert((before + tail)[before.len() - 1] == before.last());
        }
    }
    lemma_replaced_parts(before, tail, from, "\n\n"@);
    assert forall|i: int| 0 <= i < feeds.len() < i + from.len() implies !#[trigger] occurs_at(
        feeds + after,
        from,
        i,
    ) by {
        let k = feeds.len() - i;
        if occurs_at(feeds + after, from, i) {
            assert((feeds + after).subrange(i, i + from.len())[k] == from[k]);
            assert((feeds + after)[feeds.len() as int] == after[0]);
        }
    }
    lemma_replaced_parts(feeds, after, from, "\n\n"@);
    assert(replaced(before, from, "\n\n"@) + (replaced(feeds, from, "\n\n"@) + replaced(
        after,
        from,
        "\n\n"@,
    )) =~= replaced(before, from, "\n\n"@) + replaced(feeds, from, "\n\n"@) + replaced(
        after,
        from,
        "\n\n"@,
    ));
}

/// Without three line feeds in a row only the white space around a text is touched.
pub proof fn lemma_tidied(before: Seq<char>, core: Seq<char>, after: Seq<char>)
    requires
        is_blank(before),
        is_blank(after),
        has_clean_ends(core),
        !occurs(before + core + after, "\n\n\n"@),
    ensures
        tidied(before + core + after) == core,
{
    lemma_replaced_absent(before + core + after, "\n\n\n"@, "\n\n"@);
    lemma_trimmed_core(before, core, after);
}

/// A text without private use characters is freed of word limits, then of line numbers, and then
/// tidied, whatever references there are.
pub proof fn lemma_plain_cleaned(text: Seq<char>, refs: Map<Seq<char>, (Seq<char>, Seq<char>)>)
    requires
        is_plain(text),
    ensures
        cleaned(text, refs) == tidied(
            line_numbers_removed(word_limits_replaced(text, Seq::empty()), 0),
        ),
{
    let none = Seq::<char>::empty();
    lemma_cites_around(none, text, none, refs);
    assert(none + text + none =~= text);
    lemma_nothing_marked(refs);
    assert(none + text + markers_rewritten(none, refs) =~= text);
}

proof fn lemma_nothing_marked(refs: Map<Seq<char>, (Seq<char>, Seq<char>)>)
    ensures
        markers_rewritten(Seq::empty(), refs) == Seq::<char>::empty(),
{
    reveal(Seq::filter);
}

/// Rewriting the markers first and cleaning then is cleaning: once the markers are rewritten, no
/// reference counts any more.
pub proof fn lemma_markers_first(
    text: Seq<char>,
    refs: Map<Seq<char>, (Seq<char>, Seq<char>)>,
    others: Map<Seq<char>, (Seq<char>, Seq<char>)>,
)
    ensures
        cleaned(markers_rewritten(text, refs), others) == cleaned(text, refs),
{
    let marked = markers_rewritten(text, refs);
    let p = |c: char| !is_private_use(c);
    let s = cites_rewritten(text, refs);
    assert forall|i: int| 0 <= i < marked.len() implies !('\u{e000}' <= (#[trigger] marked[i])
        <= '\u{f8ff}') by {
        s.lemma_filter_pred(p, i);
    }
    lemma_plain_cleaned(marked, others);
}

} // verus!
