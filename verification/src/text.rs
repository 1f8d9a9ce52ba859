//! Characters, strings and the few operations on them that the rest of the crate is stated over.
//!
//! A string is the sequence of its characters, `s@`.

use vstd::prelude::*;
use vstd::string::*;
use vstd::utf8::*;

verus! {

/// `String::push` appends one character at the end.
pub assume_specification[ String::push ](s: &mut String, c: char)
    ensures
        final(s)@ == old(s)@.push(c),
;

/// The characters of a string, in order.
pub fn chars_of(s: &str) -> (r: Vec<char>)
    ensures
        r@ == s@,
{
    let mut out: Vec<char> = Vec::new();
    for c in it: s.chars()
        invariant
            out@ == it.seq().take(it.index() as int),
            it.seq() == s@,
    {
        proof {
            assert(it.seq().take(it.index() + 1) =~= it.seq().take(it.index() as int).push(
                it.seq()[it.index() as int],
            ));
        }
        out.push(c);
    }
    out
}

/// The string made of the characters from `lo` up to `hi`.
pub fn string_between(v: &Vec<char>, lo: usize, hi: usize) -> (r: String)
    requires
        lo <= hi <= v.len(),
    ensures
        r@ == v@.subrange(lo as int, hi as int),
{
    let mut out = String::new();
    let mut i: usize = lo;
    while i < hi
        invariant
            lo <= i <= hi <= v.len(),
            out@ == v@.subrange(lo as int, i as int),
        decreases hi - i,
    {
        proof {
            assert(v@.subrange(lo as int, i + 1) =~= v@.subrange(lo as int, i as int).push(
                v@[i as int],
            ));
        }
        out.push(v[i]);
        i = i + 1;
    }
    out
}

/// Whether two strings are the same.
pub fn same(a: &str, b: &str) -> (r: bool)
    ensures
        r == (a@ == b@),
{
    let x = a.as_bytes();
    let y = b.as_bytes();
    proof {
        encode_utf8_decode_utf8(a@);
        encode_utf8_decode_utf8(b@);
    }
    if x.len() != y.len() {
        return false;
    }
    let mut i: usize = 0;
    while i < x.len()
        invariant
            i <= x.len(),
            x.len() == y.len(),
            x@ == encode_utf8(a@),
            y@ == encode_utf8(b@),
            forall|k: int| 0 <= k < i ==> x@[k] == y@[k],
        decreases x.len() - i,
    {
        if x[i] != y[i] {
            return false;
        }
        i = i + 1;
    }
    proof {
        assert(x@ =~= y@);
    }
    true
}

// ---------------------------------------------------------------------------
// White space
// ---------------------------------------------------------------------------
/// The characters with the Unicode property `White_Space`.
pub open spec fn is_white_space(c: char) -> bool {
    ||| '\u{9}' <= c <= '\u{d}'
    ||| c == ' '
    ||| c == '\u{85}'
    ||| c == '\u{a0}'
    ||| c == '\u{1680}'
    ||| '\u{2000}' <= c <= '\u{200a}'
    ||| c == '\u{2028}'
    ||| c == '\u{2029}'
    ||| c == '\u{202f}'
    ||| c == '\u{205f}'
    ||| c == '\u{3000}'
}

/// Whether `c` is white space.
pub fn white_space(c: char) -> (r: bool)
    ensures
        r == is_white_space(c),
{
    ('\u{9}' <= c && c <= '\u{d}') || c == ' ' || c == '\u{85}' || c == '\u{a0}' || c == '\u{1680}'
        || ('\u{2000}' <= c && c <= '\u{200a}') || c == '\u{2028}' || c == '\u{2029}' || c
        == '\u{202f}' || c == '\u{205f}' || c == '\u{3000}'
}

/// `s` without the white space that it starts with.
pub open spec fn trimmed_start(s: Seq<char>) -> Seq<char>
    decreases s.len(),
{
    if s.len() > 0 && is_white_space(s.first()) {
        trimmed_start(s.drop_first())
    } else {
        s
    }
}

/// `s` without the white space that it ends with.
pub open spec fn trimmed_end(s: Seq<char>) -> Seq<char>
    decreases s.len(),
{
    if s.len() > 0 && is_white_space(s.last()) {
        trimmed_end(s.drop_last())
    } else {
        s
    }
}

/// `s` without the white space at either end.
pub open spec fn trimmed(s: Seq<char>) -> Seq<char> {
    trimmed_end(trimmed_start(s))
}

/// Removes the white space at either end.
pub fn trim(s: &str) -> (r: String)
    ensures
        r@ == trimmed(s@),
{
    let v = chars_of(s);
    let mut lo: usize = 0;
    proof {
        assert(v@.skip(0) =~= v@);
    }
    while lo < v.len() && white_space(v[lo])
        invariant
            lo <= v.len(),
            v@ == s@,
            trimmed_start(v@.skip(lo as int)) == trimmed_start(s@),
        decreases v.len() - lo,
    {
        proof {
            assert(v@.skip(lo as int).drop_first() =~= v@.skip(lo + 1));
        }
        lo = lo + 1;
    }
    let mut hi: usize = v.len();
    let ghost t = v@.skip(lo as int);
    proof {
        assert(v@.subrange(lo as int, hi as int) =~= t);
        assert(t == trimmed_start(s@));
    }
    while lo < hi && white_space(v[hi - 1])
        invariant
            lo <= hi <= v.len(),
            trimmed_end(v@.subrange(lo as int, hi as int)) == trimmed_end(t),
        decreases hi - lo,
    {
        proof {
            assert(v@.subrange(lo as int, hi as int).drop_last() =~= v@.subrange(
                lo as int,
                hi - 1,
            ));
        }
        hi = hi - 1;
    }
    string_between(&v, lo, hi)
}

/// Trimming leaves no white space at either end, and what is left is a stretch of the text.
pub proof fn lemma_trimmed(s: Seq<char>)
    ensures
        trimmed(s).len() > 0 ==> !is_white_space(trimmed(s).first()) && !is_white_space(
            trimmed(s).last(),
        ),
        exists|i: int, j: int| 0 <= i <= j <= s.len() && trimmed(s) == #[trigger] s.subrange(i, j),
{
    lemma_trimmed_start(s);
    let t = trimmed_start(s);
    lemma_trimmed_end(t);
    let i = s.len() - t.len();
    assert(trimmed(s) =~= s.subrange(i, i + trimmed(s).len()));
}

proof fn lemma_trimmed_start(s: Seq<char>)
    ensures
        trimmed_start(s).len() <= s.len(),
        trimmed_start(s) == s.skip(s.len() - trimmed_start(s).len()),
        trimmed_start(s).len() > 0 ==> !is_white_space(trimmed_start(s).first()),
    decreases s.len(),
{
    if s.len() > 0 && is_white_space(s.first()) {
        lemma_trimmed_start(s.drop_first());
    }
    assert(trimmed_start(s) =~= s.skip(s.len() - trimmed_start(s).len()));
}

proof fn lemma_trimmed_end(s: Seq<char>)
    ensures
        trimmed_end(s).len() <= s.len(),
        trimmed_end(s) == s.take(trimmed_end(s).len() as int),
        trimmed_end(s).len() > 0 ==> !is_white_space(trimmed_end(s).last()),
    decreases s.len(),
{
    if s.len() > 0 && is_white_space(s.last()) {
        lemma_trimmed_end(s.drop_last());
    }
    assert(trimmed_end(s) =~= s.take(trimmed_end(s).len() as int));
}

/// Trimming twice is trimming once.
pub proof fn lemma_trimmed_twice(s: Seq<char>)
    ensures
        trimmed(trimmed(s)) == trimmed(s),
{
    lemma_trimmed(s);
}

// ---------------------------------------------------------------------------
// Occurrences
// ---------------------------------------------------------------------------
/// `needle` stands in `s` from position `i` on.
pub open spec fn occurs_at(s: Seq<char>, needle: Seq<char>, i: int) -> bool {
    0 <= i && i + needle.len() <= s.len() && s.subrange(i, i + needle.len()) == needle
}

/// `needle` stands somewhere in `s`.
pub open spec fn occurs(s: Seq<char>, needle: Seq<char>) -> bool {
    exists|i: int| occurs_at(s, needle, i)
}

/// The first place at or after `from` where `needle` stands in `s`.
pub open spec fn first_occurrence(s: Seq<char>, needle: Seq<char>, from: int) -> Option<int>
    decreases s.len() + 1 - from,
{
    if from + needle.len() > s.len() {
        None
    } else if occurs_at(s, needle, from) {
        Some(from)
    } else {
        first_occurrence(s, needle, from + 1)
    }
}

/// `first_occurrence` is an occurrence, and none comes before it.
pub proof fn lemma_first_occurrence(s: Seq<char>, needle: Seq<char>, from: int)
    requires
        0 <= from,
    ensures
        match first_occurrence(s, needle, from) {
            Some(i) => from <= i && occurs_at(s, needle, i) && (forall|j: int|
                from <= j < i ==> !occurs_at(s, needle, j)),
            None => forall|j: int| from <= j ==> !occurs_at(s, needle, j),
        },
    decreases s.len() + 1 - from,
{
    if from + needle.len() > s.len() {
    } else if occurs_at(s, needle, from) {
    } else {
        lemma_first_occurrence(s, needle, from + 1);
    }
}

/// Whether `needle` stands in `v` from position `i` on.
pub fn stands_at(v: &Vec<char>, needle: &Vec<char>, i: usize) -> (r: bool)
    ensures
        r == occurs_at(v@, needle@, i as int),
{
    if i > v.len() || v.len() - i < needle.len() {
        return false;
    }
    let mut k: usize = 0;
    while k < needle.len()
        invariant
            i + needle.len() <= v.len(),
            k <= needle.len(),
            forall|m: int| 0 <= m < k ==> v@[i + m] == needle@[m],
        decreases needle.len() - k,
    {
        if v[i + k] != needle[k] {
            proof {
                if occurs_at(v@, needle@, i as int) {
                    assert(v@.subrange(i as int, i + needle.len())[k as int] == needle@[k as int]);
                }
            }
            return false;
        }
        k = k + 1;
    }
    proof {
        assert(v@.subrange(i as int, i + needle.len()) =~= needle@);
    }
    true
}

/// The first place at or after `from` where `needle` stands in `v`.
pub fn find_from(v: &Vec<char>, needle: &Vec<char>, from: usize) -> (r: Option<usize>)
    ensures
        match r {
            Some(i) => first_occurrence(v@, needle@, from as int) == Some(i as int),
            None => first_occurrence(v@, needle@, from as int) is None,
        },
{
    let mut i: usize = from;
    while i <= v.len() && v.len() - i >= needle.len()
        invariant
            from <= i,
            first_occurrence(v@, needle@, from as int) == first_occurrence(v@, needle@, i as int),
        decreases v.len() + 1 - i,
    {
        if stands_at(v, needle, i) {
            return Some(i);
        }
        proof {
            if i == v.len() {
                assert(v@.subrange(i as int, i + needle.len()) =~= needle@);
            }
        }
        i = i + 1;
    }
    None
}

/// Whether `needle` stands somewhere in `s`.
pub fn contains(s: &str, needle: &str) -> (r: bool)
    ensures
        r == occurs(s@, needle@),
{
    let found = find_from(&chars_of(s), &chars_of(needle), 0);
    proof {
        lemma_first_occurrence(s@, needle@, 0);
    }
    found.is_some()
}

/// `s` with every occurrence of `from` turned into `to`, read from the left and without overlap.
pub open spec fn replaced(s: Seq<char>, from: Seq<char>, to: Seq<char>) -> Seq<char>
    decreases s.len(),
{
    if from.len() == 0 || s.len() == 0 {
        s
    } else if occurs_at(s, from, 0) {
        to + replaced(s.skip(from.len() as int), from, to)
    } else {
        seq![s.first()] + replaced(s.skip(1), from, to)
    }
}

/// Every character of the result comes from the text or from `to`.
pub proof fn lemma_replaced_from(s: Seq<char>, from: Seq<char>, to: Seq<char>, c: char)
    requires
        replaced(s, from, to).contains(c),
    ensures
        s.contains(c) || to.contains(c),
    decreases s.len(),
{
    if from.len() == 0 || s.len() == 0 {
    } else {
        let (head, n) = if occurs_at(s, from, 0) {
            (to, from.len() as int)
        } else {
            (seq![s.first()], 1int)
        };
        let tail = replaced(s.skip(n), from, to);
        let i = (head + tail).index_of(c);
        if i < head.len() {
            assert(head[i] == c);
            if n == 1 && !occurs_at(s, from, 0) {
                assert(s[0] == c);
            }
        } else {
            assert(tail[i - head.len()] == c);
            lemma_replaced_from(s.skip(n), from, to, c);
            if s.skip(n).contains(c) {
                let k = s.skip(n).index_of(c);
                assert(s[n + k] == c);
            }
        }
    }
}

/// Turns every occurrence of `from` into `to`.
pub fn replace(s: &str, from: &str, to: &str) -> (r: String)
    requires
        from@.len() > 0,
    ensures
        r@ == replaced(s@, from@, to@),
{
    let v = chars_of(s);
    let f = chars_of(from);
    let mut out = String::new();
    let mut i: usize = 0;
    proof {
        assert(v@.skip(0) =~= v@);
        assert(out@ + replaced(v@, from@, to@) =~= replaced(v@, from@, to@));
    }
    while i < v.len()
        invariant
            i <= v.len(),
            v@ == s@,
            f@ == from@,
            from@.len() > 0,
            out@ + replaced(v@.skip(i as int), from@, to@) == replaced(s@, from@, to@),
        decreases v.len() - i,
    {
        let ghost rest = v@.skip(i as int);
        proof {
            if i + f.len() <= v.len() {
                assert(v@.subrange(i as int, i + f.len()) =~= rest.subrange(0, 0 + f.len()));
            }
            assert(occurs_at(v@, f@, i as int) == occurs_at(rest, f@, 0));
        }
        if stands_at(&v, &f, i) {
            proof {
                assert(rest.skip(f.len() as int) =~= v@.skip(i + f.len()));
                assert(out@ + (to@ + replaced(rest.skip(f.len() as int), from@, to@)) =~= (out@
                    + to@) + replaced(rest.skip(f.len() as int), from@, to@));
            }
            out.append(to);
            i = i + f.len();
        } else {
            proof {
                assert(rest.skip(1) =~= v@.skip(i + 1));
                assert(out@ + (seq![rest.first()] + replaced(rest.skip(1), from@, to@))
                    =~= out@.push(rest.first()) + replaced(rest.skip(1), from@, to@));
            }
            out.push(v[i]);
            i = i + 1;
        }
    }
    proof {
        assert(v@.skip(i as int) =~= Seq::<char>::empty());
        assert(out@ + Seq::<char>::empty() =~= out@);
    }
    out
}

// ---------------------------------------------------------------------------
// ASCII case
// ---------------------------------------------------------------------------
/// `c` in lower case, where `c` is an ASCII letter.
pub open spec fn ascii_lower(c: char) -> char {
    if 'A' <= c <= 'Z' {
        ((c as u8) + 32) as u8 as char
    } else {
        c
    }
}

/// `s` with its ASCII letters in lower case.
pub open spec fn ascii_lowered(s: Seq<char>) -> Seq<char> {
    s.map_values(|c: char| ascii_lower(c))
}

/// The characters of `s`, ASCII letters in lower case.
pub fn lower_chars(v: &Vec<char>) -> (r: Vec<char>)
    ensures
        r@ == ascii_lowered(v@),
{
    let mut out: Vec<char> = Vec::new();
    let mut i: usize = 0;
    while i < v.len()
        invariant
            i <= v.len(),
            out@ == ascii_lowered(v@.take(i as int)),
        decreases v.len() - i,
    {
        let c = v[i];
        let d = if 'A' <= c && c <= 'Z' {
            (c as u8 + 32) as char
        } else {
            c
        };
        out.push(d);
        proof {
            assert(ascii_lowered(v@.take(i + 1)) =~= ascii_lowered(v@.take(i as int)).push(
                ascii_lower(c),
            ));
        }
        i = i + 1;
    }
    proof {
        assert(v@.take(i as int) =~= v@);
    }
    out
}

// ---------------------------------------------------------------------------
// Lines and numbers
// ---------------------------------------------------------------------------
/// The contents of some strings.
pub open spec fn texts(v: Seq<String>) -> Seq<Seq<char>> {
    v.map_values(|s: String| s@)
}

/// The lines one after the other with `sep` between them.
pub open spec fn joined(lines: Seq<Seq<char>>, sep: Seq<char>) -> Seq<char>
    decreases lines.len(),
{
    if lines.len() == 0 {
        Seq::empty()
    } else if lines.len() == 1 {
        lines[0]
    } else {
        joined(lines.drop_last(), sep) + sep + lines.last()
    }
}

/// Puts the lines together with `sep` between them.
pub fn join(lines: &Vec<String>, sep: &str) -> (r: String)
    ensures
        r@ == joined(texts(lines@), sep@),
{
    let mut out = String::new();
    let mut i: usize = 0;
    while i < lines.len()
        invariant
            i <= lines.len(),
            out@ == joined(texts(lines@.take(i as int)), sep@),
        decreases lines.len() - i,
    {
        proof {
            assert(texts(lines@.take(i + 1)).drop_last() =~= texts(lines@.take(i as int)));
            assert(texts(lines@.take(i + 1)).last() == lines@[i as int]@);
        }
        if i > 0 {
            out.append(sep);
        }
        out.append(lines[i].as_str());
        proof {
            if i == 0 {
                assert(out@ =~= lines@[0]@);
            }
        }
        i = i + 1;
    }
    proof {
        assert(lines@.take(i as int) =~= lines@);
    }
    out
}

/// The digit that stands for `d`, one of sixteen.
pub open spec fn digit(d: nat) -> char {
    "0123456789abcdef"@[d as int]
}

/// `n` written in the given base, without leading zeros.
pub open spec fn numeral(n: nat, base: nat) -> Seq<char>
    decreases n,
{
    if n < base || base < 2 {
        seq![digit(n)]
    } else {
        proof {
            vstd::arithmetic::div_mod::lemma_div_decreases(n as int, base as int);
        }
        numeral(n / base, base).push(digit(n % base))
    }
}

/// Writes `n` in the given base.
pub fn write_number(n: u128, base: u128) -> (r: String)
    requires
        2 <= base <= 16,
    ensures
        r@ == numeral(n as nat, base as nat),
    decreases n,
{
    proof {
        if n >= base {
            vstd::arithmetic::div_mod::lemma_div_decreases(n as int, base as int);
        }
    }
    let mut out = if n < base {
        String::new()
    } else {
        write_number(n / base, base)
    };
    proof {
        reveal_strlit("0123456789abcdef");
    }
    out.push("0123456789abcdef".get_char((n % base) as usize));
    proof {
        if n < base {
            assert(n % base == n) by (nonlinear_arith)
                requires
                    n < base,
            ;
            assert(out@ =~= seq![digit(n as nat)]);
        }
    }
    out
}

/// Two strings, one after the other.
pub fn cat(a: &str, b: &str) -> (r: String)
    ensures
        r@ == a@ + b@,
{
    let mut out = a.to_string();
    out.append(b);
    out
}

// ---------------------------------------------------------------------------
// Laws
// ---------------------------------------------------------------------------
/// All characters of `s` are white space.
pub open spec fn is_blank(s: Seq<char>) -> bool {
    forall|i: int| 0 <= i < s.len() ==> is_white_space(#[trigger] s[i])
}

/// `s` neither starts nor ends with white space.
pub open spec fn has_clean_ends(s: Seq<char>) -> bool {
    s.len() > 0 ==> !is_white_space(s[0]) && !is_white_space(s[s.len() - 1])
}

/// Trimming takes away the white space around a text, all of it and nothing else.
pub proof fn lemma_trimmed_core(before: Seq<char>, core: Seq<char>, after: Seq<char>)
    requires
        is_blank(before),
        is_blank(after),
        has_clean_ends(core),
    ensures
        trimmed(before + core + after) == core,
    decreases before.len() + after.len(),
{
    let s = before + core + after;
    if before.len() > 0 {
        assert(is_white_space(before[0]));
        assert(s.drop_first() =~= before.drop_first() + core + after);
        assert forall|i: int| 0 <= i < before.drop_first().len() implies is_white_space(
            #[trigger] before.drop_first()[i],
        ) by {
            assert(before.drop_first()[i] == before[i + 1]);
        }
        lemma_trimmed_core(before.drop_first(), core, after);
    } else if core.len() == 0 {
        assert(s =~= after);
        lemma_blank_trimmed(after);
        assert(trimmed(s) =~= core);
    } else {
        assert(s =~= core + after);
        assert(trimmed_start(s) == s);
        lemma_trimmed_tail(core, after);
    }
}

proof fn lemma_trimmed_tail(core: Seq<char>, after: Seq<char>)
    requires
        core.len() > 0,
        !is_white_space(core[core.len() - 1]),
        is_blank(after),
    ensures
        trimmed_end(core + after) == core,
    decreases after.len(),
{
    let s = core + after;
    if after.len() > 0 {
        assert(is_white_space(after[after.len() - 1]));
        assert(s.drop_last() =~= core + after.drop_last());
        assert forall|i: int| 0 <= i < after.drop_last().len() implies is_white_space(
            #[trigger] after.drop_last()[i],
        ) by {
            assert(after.drop_last()[i] == after[i]);
        }
        lemma_trimmed_tail(core, after.drop_last());
    } else {
        assert(s =~= core);
    }
}

/// Nothing is left of a text that is all white space; what is not all white space leaves
/// something.
pub proof fn lemma_blank_trimmed(s: Seq<char>)
    ensures
        (trimmed(s).len() == 0) == is_blank(s),
    decreases s.len(),
{
    lemma_trimmed_start(s);
    let t = trimmed_start(s);
    lemma_trimmed_end(t);
    if is_blank(s) {
        if t.len() > 0 {
            assert(t[0] == s[s.len() - t.len()]);
            assert(is_white_space(s[s.len() - t.len()]));
        }
    } else {
        let i = choose|i: int| 0 <= i < s.len() && !is_white_space(#[trigger] s[i]);
        lemma_start_kept(s, i);
        assert(t.len() > 0);
        lemma_end_kept(t);
    }
}

proof fn lemma_start_kept(s: Seq<char>, i: int)
    requires
        0 <= i < s.len(),
        !is_white_space(s[i]),
    ensures
        trimmed_start(s).len() > 0,
    decreases s.len(),
{
    if is_white_space(s.first()) {
        assert(s.drop_first()[i - 1] == s[i]);
        lemma_start_kept(s.drop_first(), i - 1);
    }
}

proof fn lemma_end_kept(t: Seq<char>)
    requires
        t.len() > 0,
        !is_white_space(t[0]),
    ensures
        trimmed_end(t).len() > 0,
    decreases t.len(),
{
    if is_white_space(t.last()) {
        assert(t.len() > 1);
        assert(t.drop_last()[0] == t[0]);
        lemma_end_kept(t.drop_last());
    }
}

/// A text in which what is to be replaced does not stand stays as it is.
pub proof fn lemma_replaced_absent(s: Seq<char>, from: Seq<char>, to: Seq<char>)
    requires
        !occurs(s, from),
    ensures
        replaced(s, from, to) == s,
    decreases s.len(),
{
    if from.len() > 0 && s.len() > 0 {
        assert(!occurs_at(s, from, 0));
        if occurs(s.skip(1), from) {
            let i = choose|i: int| occurs_at(s.skip(1), from, i);
            assert(s.skip(1).subrange(i, i + from.len()) =~= s.subrange(i + 1, i + 1 + from.len()));
            assert(occurs_at(s, from, i + 1));
        }
        lemma_replaced_absent(s.skip(1), from, to);
        assert(seq![s.first()] + s.skip(1) =~= s);
    }
}

/// No occurrence of `needle` in the two texts put together runs from the first into the second.
pub open spec fn no_straddle(a: Seq<char>, b: Seq<char>, needle: Seq<char>) -> bool {
    forall|i: int|
        0 <= i < a.len() < i + needle.len() ==> !#[trigger] occurs_at(a + b, needle, i)
}

/// Where nothing that is to be replaced runs from one text into the next, the two are replaced
/// each for itself.
pub proof fn lemma_replaced_parts(a: Seq<char>, b: Seq<char>, from: Seq<char>, to: Seq<char>)
    requires
        no_straddle(a, b, from),
    ensures
        replaced(a + b, from, to) == replaced(a, from, to) + replaced(b, from, to),
    decreases a.len(),
{
    let s = a + b;
    if from.len() == 0 {
    } else if a.len() == 0 {
        assert(s =~= b);
        assert(replaced(a, from, to) + replaced(b, from, to) =~= replaced(b, from, to));
    } else {
        if from.len() <= a.len() {
            assert(s.subrange(0, from.len() as int) =~= a.subrange(0, from.len() as int));
        } else {
            assert(!occurs_at(s, from, 0));
        }
        let n = if occurs_at(a, from, 0) {
            from.len() as int
        } else {
            1int
        };
        assert(s.skip(n) =~= a.skip(n) + b);
        assert forall|i: int|
            0 <= i < a.skip(n).len() < i + from.len() implies !#[trigger] occurs_at(
            a.skip(n) + b,
            from,
            i,
        ) by {
            if n + i + from.len() <= s.len() {
                assert(s.skip(n).subrange(i, i + from.len()) =~= s.subrange(
                    n + i,
                    n + i + from.len(),
                ));
            }
            assert(!occurs_at(s, from, n + i));
        }
        lemma_replaced_parts(a.skip(n), b, from, to);
        let head = if occurs_at(a, from, 0) {
            to
        } else {
            seq![a.first()]
        };
        assert(head + (replaced(a.skip(n), from, to) + replaced(b, from, to)) =~= (head + replaced(
            a.skip(n),
            from,
            to,
        )) + replaced(b, from, to));
    }
}

/// One occurrence of what is to be replaced, on its own, becomes what it is replaced by.
pub proof fn lemma_replaced_one(from: Seq<char>, to: Seq<char>)
    requires
        from.len() > 0,
    ensures
        replaced(from, from, to) == to,
{
    assert(from.subrange(0, from.len() as int) =~= from);
    assert(occurs_at(from, from, 0));
    let rest = from.skip(from.len() as int);
    assert(rest =~= Seq::<char>::empty());
    assert(replaced(rest, from, to) == rest);
    assert(to + rest =~= to);
}

/// Lines are put together one by one: none is nothing, one stands for itself, and each further
/// one comes behind a separator.
pub proof fn lemma_joined(lines: Seq<Seq<char>>, line: Seq<char>, sep: Seq<char>)
    ensures
        joined(Seq::empty(), sep) == Seq::<char>::empty(),
        joined(seq![line], sep) == line,
        lines.len() > 0 ==> joined(lines.push(line), sep) == joined(lines, sep) + sep + line,
{
    assert(lines.push(line).drop_last() =~= lines);
}

/// A stretch of the lines stands in the whole as it is put together by itself.
pub proof fn lemma_joined_stretch(
    before: Seq<Seq<char>>,
    stretch: Seq<Seq<char>>,
    after: Seq<Seq<char>>,
    sep: Seq<char>,
)
    requires
        stretch.len() > 0,
    ensures
        occurs(joined(before + stretch + after, sep), joined(stretch, sep)),
    decreases after.len(),
{
    let all = before + stretch + after;
    let part = joined(stretch, sep);
    if after.len() > 0 {
        let most = before + stretch + after.drop_last();
        lemma_joined_stretch(before, stretch, after.drop_last(), sep);
        assert(all =~= most.push(after.last()));
        lemma_joined(most, after.last(), sep);
        let i = choose|i: int| occurs_at(joined(most, sep), part, i);
        assert(joined(all, sep).subrange(i, i + part.len()) =~= joined(most, sep).subrange(
            i,
            i + part.len(),
        ));
        assert(occurs_at(joined(all, sep), part, i));
    } else {
        assert(all =~= before + stretch);
        let i = lemma_joined_end(before, stretch, sep);
        assert(occurs_at(joined(all, sep), part, i));
    }
}

proof fn lemma_joined_end(before: Seq<Seq<char>>, stretch: Seq<Seq<char>>, sep: Seq<char>) -> (i:
    int)
    requires
        stretch.len() > 0,
    ensures
        occurs_at(joined(before + stretch, sep), joined(stretch, sep), i),
        i + joined(stretch, sep).len() == joined(before + stretch, sep).len(),
    decreases stretch.len(),
{
    let all = before + stretch;
    let part = joined(stretch, sep);
    let whole = joined(all, sep);
    let most = stretch.drop_last();
    assert(all.drop_last() =~= before + most);
    if stretch.len() == 1 {
        let i = whole.len() - part.len();
        if before.len() == 0 {
            assert(all =~= stretch);
        } else {
            assert(all.last() == part);
        }
        assert(whole.subrange(i, i + part.len()) =~= part);
        i
    } else {
        let i = lemma_joined_end(before, most, sep);
        let shorter = joined(before + most, sep);
        assert(whole =~= shorter + sep + stretch.last());
        assert(part =~= joined(most, sep) + sep + stretch.last());
        assert(shorter.subrange(i, i + joined(most, sep).len()) == joined(most, sep));
        assert forall|k: int| 0 <= k < joined(most, sep).len() implies shorter[i + k] == joined(
            most,
            sep,
        )[k] by {
            assert(shorter.subrange(i, i + joined(most, sep).len())[k] == shorter[i + k]);
        }
        assert(whole.subrange(i, i + part.len()) =~= part);
        i
    }
}

/// ASCII letters get their lower case, 32 places on; no other character changes.
pub proof fn lemma_ascii_lowered(s: Seq<char>, i: int)
    requires
        0 <= i < s.len(),
    ensures
        ascii_lowered(s).len() == s.len(),
        'A' <= s[i] <= 'Z' ==> ascii_lowered(s)[i] as int == s[i] as int + 32,
        !('A' <= s[i] <= 'Z') ==> ascii_lowered(s)[i] == s[i],
{
}

/// A number is written without leading zeros, in digits of its base.
pub proof fn lemma_numeral_digits(n: nat, base: nat)
    requires
        2 <= base <= 16,
    ensures
        n == 0 ==> numeral(n, base) == seq!['0'],
        n > 0 ==> numeral(n, base).len() > 0 && numeral(n, base)[0] != '0',
        forall|i: int|
            0 <= i < numeral(n, base).len() ==> '0' <= (#[trigger] numeral(n, base)[i]) <= '9'
                || 'a' <= numeral(n, base)[i] <= 'f',
    decreases n,
{
    reveal_strlit("0123456789abcdef");
    if n >= base {
        vstd::arithmetic::div_mod::lemma_div_decreases(n as int, base as int);
        vstd::arithmetic::div_mod::lemma_div_non_zero(n as int, base as int);
        lemma_numeral_digits(n / base, base);
        let last = n % base;
        assert(0 <= last < base) by (nonlinear_arith)
            requires
                base >= 2,
                last == n % base,
        ;
    }
}

} // verus!
