//! The text that a tool answers with: the answer, then its sources, grouped by domain.

use vstd::prelude::*;
use vstd::string::*;

use crate::json::items_view;
use crate::json::lemma_items_view;
use crate::json::Json;
use crate::json::JsonV;
use crate::patterns::has_link_marker;
use crate::patterns::is_match;
use crate::patterns::LINK_MARKER;
use crate::results::holds;
use crate::results::items_of;
use crate::results::or_empty;
use crate::results::owned_or_empty;
use crate::text::cat;
use crate::text::join;
use crate::text::joined;
use crate::text::lemma_joined_stretch;
use crate::text::numeral;
use crate::text::occurs;
use crate::text::occurs_at;
use crate::text::same;
use crate::text::texts;
use crate::text::write_number;

verus! {

/// The domain of a source; empty where it has none.
pub open spec fn domain_of(item: JsonV) -> Seq<char> {
    or_empty(item.str_at("domain"@))
}

/// The domains of the items, in the order in which they are first seen.
pub open spec fn domain_order(items: Seq<JsonV>) -> Seq<Seq<char>>
    decreases items.len(),
{
    if items.len() == 0 {
        Seq::empty()
    } else {
        let before = domain_order(items.drop_last());
        if before.contains(domain_of(items.last())) {
            before
        } else {
            before.push(domain_of(items.last()))
        }
    }
}

/// The items of a domain, in order.
pub open spec fn of_domain(items: Seq<JsonV>, domain: Seq<char>) -> Seq<JsonV> {
    items.filter(|item: JsonV| domain_of(item) == domain)
}

/// The items of the given domains, one domain after the other.
pub open spec fn grouped(items: Seq<JsonV>, domains: Seq<Seq<char>>) -> Seq<JsonV>
    decreases domains.len(),
{
    if domains.len() == 0 {
        Seq::empty()
    } else {
        grouped(items, domains.drop_last()) + of_domain(items, domains.last())
    }
}

/// What a source is called: its title, else its address.
pub open spec fn name_of(item: JsonV) -> Seq<char> {
    match (item.str_at("title"@), item.str_at("url"@)) {
        (Some(title), _) => title,
        (None, Some(url)) => url,
        (None, None) => "(untitled)"@,
    }
}

/// The first line of a source: its number, its reference where references are shown, its name.
pub open spec fn first_line(n: nat, item: JsonV, expose_refs: bool) -> Seq<char> {
    let start = "["@ + numeral(n, 10) + "] "@;
    match (expose_refs, item.str_at("ref_id"@)) {
        (true, Some(id)) => start + "(ref: "@ + id + ") "@ + name_of(item),
        _ => start + name_of(item),
    }
}

/// The lines of a source: the first, its address or else its domain, and its snippet.
pub open spec fn item_lines(n: nat, item: JsonV, expose_refs: bool) -> Seq<Seq<char>> {
    let first = seq![first_line(n, item, expose_refs)];
    let place = match (item.str_at("url"@), item.str_at("domain"@)) {
        (Some(url), _) => seq!["    "@ + url],
        (None, Some(domain)) => seq!["    "@ + domain],
        (None, None) => Seq::empty(),
    };
    let snippet = match item.str_at("snippet"@) {
        Some(s) => seq!["    "@ + s],
        None => Seq::empty(),
    };
    first + place + snippet
}

/// The lines of some sources, numbered from `start` on.
pub open spec fn group_lines(items: Seq<JsonV>, start: nat, expose_refs: bool) -> Seq<Seq<char>>
    decreases items.len(),
{
    if items.len() == 0 {
        Seq::empty()
    } else {
        group_lines(items.drop_last(), start, expose_refs) + item_lines(
            (start + items.len() - 1) as nat,
            items.last(),
            expose_refs,
        )
    }
}

/// The line above the sources of a domain; sources without a domain have none.
pub open spec fn header_lines(domain: Seq<char>) -> Seq<Seq<char>> {
    if domain.len() == 0 {
        Seq::empty()
    } else {
        seq!["— "@ + domain + " —"@]
    }
}

/// The lines of the sources of the given domains, numbered through.
pub open spec fn list_lines(
    items: Seq<JsonV>,
    domains: Seq<Seq<char>>,
    expose_refs: bool,
) -> Seq<Seq<char>>
    decreases domains.len(),
{
    if domains.len() == 0 {
        Seq::empty()
    } else {
        let before = domains.drop_last();
        list_lines(items, before, expose_refs) + header_lines(domains.last()) + group_lines(
            of_domain(items, domains.last()),
            grouped(items, before).len() + 1,
            expose_refs,
        )
    }
}

/// The lines of an answer: its text where there is any, then its sources where there are any.
pub open spec fn answer_lines(norm: JsonV, expose_refs: bool) -> Seq<Seq<char>> {
    let text = or_empty(norm.str_at("output"@));
    let items = items_of(norm);
    let above = if text.len() == 0 {
        Seq::empty()
    } else {
        seq![text]
    };
    if items.len() == 0 {
        above
    } else {
        above + seq![Seq::empty(), "Sources:"@] + list_lines(items, domain_order(items), expose_refs)
    }
}

/// What is said below an answer that holds markers of links.
pub open spec fn link_note() -> Seq<char> {
    "\n\n（文档内容里 [turn0searchN: ...] / [cN: ...] 标记即是可点击的链接元素，其 ref_id（如 turn0searchN）可直接用于 open/click 跟随该链接继续深挖）"@
}

/// The lines as one text, with the note below where it is due; a fixed text for no lines.
pub open spec fn laid_out(lines: Seq<Seq<char>>, noted: bool) -> Seq<char> {
    if lines.len() == 0 {
        "No results returned."@
    } else if noted {
        joined(lines, "\n"@) + link_note()
    } else {
        joined(lines, "\n"@)
    }
}

/// The text of an answer. The note is due where references are shown and a marker is found.
pub open spec fn formatted(norm: JsonV, expose_refs: bool) -> Seq<char> {
    let lines = answer_lines(norm, expose_refs);
    laid_out(lines, expose_refs && has_link_marker(joined(lines, "\n"@)))
}

fn find_domains(items: &Vec<Json>) -> (r: Vec<String>)
    ensures
        texts(r@) == domain_order(items_view(items@)),
{
    let ghost all = items_view(items@);
    let mut domains: Vec<String> = Vec::new();
    let mut i: usize = 0;
    proof {
        assert(texts(domains@) =~= domain_order(all.take(0)));
    }
    while i < items.len()
        invariant
            i <= items.len(),
            all == items_view(items@),
            texts(domains@) == domain_order(all.take(i as int)),
        decreases items.len() - i,
    {
        proof {
            lemma_items_view(items@);
            assert(all.take(i + 1).drop_last() =~= all.take(i as int));
            assert(all.take(i + 1).last() == all[i as int]);
        }
        let domain = owned_or_empty(items[i].str_at("domain"));
        if !holds(&domains, domain.as_str()) {
            let ghost before = domains@;
            domains.push(domain);
            proof {
                assert(texts(domains@) =~= texts(before).push(domain@));
            }
        }
        i = i + 1;
    }
    proof {
        lemma_items_view(items@);
        assert(all.take(i as int) =~= all);
    }
    domains
}

fn push_line(lines: &mut Vec<String>, line: String)
    ensures
        texts(final(lines)@) == texts(old(lines)@) + seq![line@],
        final(lines).len() == old(lines).len() + 1,
{
    let ghost before = lines@;
    lines.push(line);
    proof {
        assert(texts(lines@) =~= texts(before) + seq![line@]);
    }
}

fn write_first_line(n: usize, item: &Json, expose_refs: bool) -> (r: String)
    ensures
        r@ == first_line(n as nat, item@, expose_refs),
{
    let mut line = "[".to_string();
    line.append(write_number(n as u128, 10).as_str());
    line.append("] ");
    if expose_refs {
        if let Some(id) = item.str_at("ref_id") {
            line.append("(ref: ");
            line.append(id);
            line.append(") ");
        }
    }
    match item.str_at("title") {
        Some(title) => {
            line.append(title);
        },
        None => match item.str_at("url") {
            Some(url) => {
                line.append(url);
            },
            None => {
                line.append("(untitled)");
            },
        },
    }
    line
}

fn push_item(lines: &mut Vec<String>, n: usize, item: &Json, expose_refs: bool)
    ensures
        texts(final(lines)@) == texts(old(lines)@) + item_lines(n as nat, item@, expose_refs),
        final(lines).len() > 0,
{
    let ghost before = texts(lines@);
    push_line(lines, write_first_line(n, item, expose_refs));
    match item.str_at("url") {
        Some(url) => {
            push_line(lines, cat("    ", url));
        },
        None => {
            if let Some(domain) = item.str_at("domain") {
                push_line(lines, cat("    ", domain));
            }
        },
    }
    if let Some(s) = item.str_at("snippet") {
        push_line(lines, cat("    ", s));
    }
    proof {
        assert(texts(lines@) =~= before + item_lines(n as nat, item@, expose_refs));
    }
}

fn push_group(
    lines: &mut Vec<String>,
    items: &Vec<Json>,
    domain: &str,
    done: usize,
    expose_refs: bool,
) -> (next: usize)
    requires
        done + of_domain(items_view(items@), domain@).len() <= usize::MAX,
    ensures
        texts(final(lines)@) == texts(old(lines)@) + group_lines(
            of_domain(items_view(items@), domain@),
            done as nat + 1,
            expose_refs,
        ),
        final(lines).len() >= old(lines).len(),
        next == done + of_domain(items_view(items@), domain@).len(),
{
    let ghost all = items_view(items@);
    let ghost before = texts(lines@);
    let ghost at_first = lines.len();
    let mut n: usize = done;
    let mut i: usize = 0;
    proof {
        reveal(Seq::filter);
        assert(texts(lines@) =~= before + group_lines(
            of_domain(all.take(0), domain@),
            done as nat + 1,
            expose_refs,
        ));
    }
    while i < items.len()
        invariant
            i <= items.len(),
            all == items_view(items@),
            done + of_domain(all, domain@).len() <= usize::MAX,
            n == done + of_domain(all.take(i as int), domain@).len(),
            texts(lines@) == before + group_lines(
                of_domain(all.take(i as int), domain@),
                done as nat + 1,
                expose_refs,
            ),
            lines.len() >= at_first,
        decreases items.len() - i,
    {
        let ghost part = of_domain(all.take(i as int), domain@);
        proof {
            lemma_items_view(items@);
            lemma_of_domain_step(all, domain@, i as int);
            lemma_of_domain_bound(all, domain@, i + 1);
        }
        let own = owned_or_empty(items[i].str_at("domain"));
        if same(own.as_str(), domain) {
            let ghost lines_before = texts(lines@);
            n = n + 1;
            push_item(lines, n, &items[i], expose_refs);
            proof {
                let more = part.push(all[i as int]);
                assert(more.drop_last() =~= part);
                assert(texts(lines@) =~= before + group_lines(more, done as nat + 1, expose_refs));
                assert(texts(lines@).len() >= lines_before.len());
            }
        }
        i = i + 1;
    }
    proof {
        lemma_items_view(items@);
        assert(all.take(i as int) =~= all);
    }
    n
}

fn push_list(
    lines: &mut Vec<String>,
    items: &Vec<Json>,
    domains: &Vec<String>,
    expose_refs: bool,
)
    requires
        texts(domains@).no_duplicates(),
    ensures
        texts(final(lines)@) == texts(old(lines)@) + list_lines(
            items_view(items@),
            texts(domains@),
            expose_refs,
        ),
        final(lines).len() >= old(lines).len(),
{
    let ghost all = items_view(items@);
    let ghost before = texts(lines@);
    let ghost at_first = lines.len();
    let ghost order = texts(domains@);
    let mut done: usize = 0;
    let mut k: usize = 0;
    proof {
        assert(texts(lines@) =~= before + list_lines(all, order.take(0), expose_refs));
    }
    while k < domains.len()
        invariant
            k <= domains.len(),
            all == items_view(items@),
            order == texts(domains@),
            order.no_duplicates(),
            done == grouped(all, order.take(k as int)).len(),
            texts(lines@) == before + list_lines(all, order.take(k as int), expose_refs),
            lines.len() >= at_first,
        decreases domains.len() - k,
    {
        let domain = domains[k].as_str();
        proof {
            lemma_items_view(items@);
            assert(order.take(k + 1).drop_last() =~= order.take(k as int));
            assert(order.take(k + 1).last() == domain@);
            assert(order.take(k + 1).no_duplicates());
            lemma_grouped(all, order.take(k + 1));
            assert(grouped(all, order.take(k + 1)).len() == done + of_domain(all, domain@).len());
            assert(all.len() == items.len());
        }
        if !domain.is_empty() {
            let mut header = "— ".to_string();
            header.append(domain);
            header.append(" —");
            push_line(lines, header);
        }
        done = push_group(lines, items, domain, done, expose_refs);
        proof {
            assert(texts(lines@) =~= before + list_lines(all, order.take(k + 1), expose_refs));
        }
        k = k + 1;
    }
    proof {
        assert(order.take(k as int) =~= order);
    }
}

/// Lays out the lines as one text, with the note below where it is due.
pub fn lay_out(lines: &Vec<String>, noted: bool) -> (r: String)
    ensures
        r@ == laid_out(texts(lines@), noted),
{
    if lines.len() == 0 {
        return "No results returned.".to_string();
    }
    let out = join(lines, "\n");
    if noted {
        cat(
            out.as_str(),
            "\n\n（文档内容里 [turn0searchN: ...] / [cN: ...] 标记即是可点击的链接元素，其 ref_id（如 turn0searchN）可直接用于 open/click 跟随该链接继续深挖）",
        )
    } else {
        out
    }
}

/// The lines of an answer and its sources.
pub fn lines_of(norm: &Json, expose_refs: bool) -> (r: Vec<String>)
    ensures
        texts(r@) == answer_lines(norm@, expose_refs),
{
    let mut lines: Vec<String> = Vec::new();
    let text = owned_or_empty(norm.str_at("output"));
    if !text.as_str().is_empty() {
        lines.push(text);
    }
    proof {
        assert(texts(lines@) =~= (if text@.len() == 0 {
            Seq::empty()
        } else {
            seq![text@]
        }));
    }
    let ghost above = texts(lines@);
    if let Some(items) = norm.array_at("results") {
        proof {
            lemma_items_view(items@);
        }
        if items.len() > 0 {
            push_line(&mut lines, String::new());
            push_line(&mut lines, "Sources:".to_string());
            let domains = find_domains(items);
            proof {
                lemma_domains(items_view(items@));
                assert(above + seq![Seq::<char>::empty()] + seq!["Sources:"@] =~= above
                    + seq![Seq::empty(), "Sources:"@]);
            }
            push_list(&mut lines, items, &domains, expose_refs);
        }
    }
    lines
}

/// Writes an answer and its sources as one text.
pub fn format_text(norm: &Json, expose_refs: bool) -> (r: String)
    ensures
        r@ == formatted(norm@, expose_refs),
{
    let lines = lines_of(norm, expose_refs);
    let noted = expose_refs && is_match(LINK_MARKER, join(&lines, "\n").as_str());
    lay_out(&lines, noted)
}

// ---------------------------------------------------------------------------
// Laws
// ---------------------------------------------------------------------------
proof fn lemma_of_domain_step(items: Seq<JsonV>, domain: Seq<char>, i: int)
    requires
        0 <= i < items.len(),
    ensures
        of_domain(items.take(i + 1), domain) == (if domain_of(items[i]) == domain {
            of_domain(items.take(i), domain).push(items[i])
        } else {
            of_domain(items.take(i), domain)
        }),
{
    reveal(Seq::filter);
    assert(items.take(i + 1).drop_last() =~= items.take(i));
    assert(items.take(i + 1).last() == items[i]);
}

proof fn lemma_of_domain_bound(items: Seq<JsonV>, domain: Seq<char>, i: int)
    requires
        0 <= i <= items.len(),
    ensures
        of_domain(items.take(i), domain).len() <= of_domain(items, domain).len(),
    decreases items.len() - i,
{
    if i < items.len() {
        lemma_of_domain_step(items, domain, i);
        lemma_of_domain_bound(items, domain, i + 1);
    } else {
        assert(items.take(i) =~= items);
    }
}

/// The domains are the domains of the items, each once: a domain has one line above its sources.
pub proof fn lemma_domains(items: Seq<JsonV>)
    ensures
        domain_order(items).no_duplicates(),
        forall|d: Seq<char>| #[trigger]
            domain_order(items).contains(d) <==> exists|i: int|
                0 <= i < items.len() && domain_of(#[trigger] items[i]) == d,
    decreases items.len(),
{
    if items.len() > 0 {
        let before = items.drop_last();
        lemma_domains(before);
        let last = items.len() - 1;
        let own = domain_of(items.last());
        assert forall|d: Seq<char>| #[trigger] domain_order(items).contains(d) <==> exists|i: int|
            0 <= i < items.len() && domain_of(#[trigger] items[i]) == d by {
            if domain_order(items).contains(d) {
                if domain_order(before).contains(d) {
                    let i = choose|i: int|
                        0 <= i < before.len() && domain_of(#[trigger] before[i]) == d;
                    assert(items[i] == before[i]);
                } else {
                    assert(d == own);
                    assert(domain_of(items[last]) == d);
                }
            }
            if exists|i: int| 0 <= i < items.len() && domain_of(#[trigger] items[i]) == d {
                let i = choose|i: int| 0 <= i < items.len() && domain_of(#[trigger] items[i]) == d;
                if i < last {
                    assert(before[i] == items[i]);
                    assert(domain_order(before).contains(d));
                    let n = domain_order(before).index_of(d);
                    assert(domain_order(items)[n] == d);
                } else if !domain_order(before).contains(d) {
                    assert(domain_order(items).last() == d);
                }
            }
        }
    }
}

/// The groups of some domains hold each item of those domains once.
pub proof fn lemma_grouped(items: Seq<JsonV>, domains: Seq<Seq<char>>)
    requires
        domains.no_duplicates(),
    ensures
        grouped(items, domains).to_multiset() == items.filter(
            |item: JsonV| domains.contains(domain_of(item)),
        ).to_multiset(),
        grouped(items, domains).len() == items.filter(
            |item: JsonV| domains.contains(domain_of(item)),
        ).len(),
        grouped(items, domains).len() <= items.len(),
    decreases domains.len(),
{
    broadcast use vstd::seq_lib::group_to_multiset_ensures;

    let here = |item: JsonV| domains.contains(domain_of(item));
    items.lemma_filter_len(here);
    if domains.len() == 0 {
        lemma_filter_none(items, here);
        assert(grouped(items, domains) =~= items.filter(here));
    } else {
        let before = domains.drop_last();
        let last = domains.last();
        assert(before.no_duplicates());
        lemma_grouped(items, before);
        assert forall|d: Seq<char>| domains.contains(d) <==> (before.contains(d) || d == last) by {
            if domains.contains(d) {
                let k = domains.index_of(d);
                if k < before.len() {
                    assert(before[k] == d);
                }
            }
            if before.contains(d) {
                let k = before.index_of(d);
                assert(domains[k] == d);
            }
            if d == last {
                assert(domains[domains.len() - 1] == d);
            }
        }
        assert(!before.contains(last)) by {
            if before.contains(last) {
                let k = before.index_of(last);
                assert(domains[k] == domains[domains.len() - 1]);
            }
        }
        lemma_filter_split(
            items,
            here,
            |item: JsonV| before.contains(domain_of(item)),
            |item: JsonV| domain_of(item) == last,
        );
        vstd::seq_lib::lemma_multiset_commutative(
            grouped(items, before),
            of_domain(items, last),
        );
    }
}

proof fn lemma_filter_none(items: Seq<JsonV>, p: spec_fn(JsonV) -> bool)
    requires
        forall|item: JsonV| !#[trigger] p(item),
    ensures
        items.filter(p) == Seq::<JsonV>::empty(),
    decreases items.len(),
{
    reveal(Seq::filter);
    if items.len() > 0 {
        lemma_filter_none(items.drop_last(), p);
    }
}

proof fn lemma_filter_split(
    items: Seq<JsonV>,
    p: spec_fn(JsonV) -> bool,
    q: spec_fn(JsonV) -> bool,
    r: spec_fn(JsonV) -> bool,
)
    requires
        forall|item: JsonV| #![trigger p(item)] p(item) == (q(item) || r(item)),
        forall|item: JsonV| #![trigger q(item)] !(q(item) && r(item)),
    ensures
        items.filter(p).to_multiset() == items.filter(q).to_multiset().add(
            items.filter(r).to_multiset(),
        ),
        items.filter(p).len() == items.filter(q).len() + items.filter(r).len(),
    decreases items.len(),
{
    broadcast use vstd::seq_lib::group_to_multiset_ensures;

    reveal(Seq::filter);
    if items.len() > 0 {
        let before = items.drop_last();
        lemma_filter_split(before, p, q, r);
        let x = items.last();
        assert(p(x) == (q(x) || r(x)));
        assert(!(q(x) && r(x)));
        assert(items.filter(p).to_multiset() =~= items.filter(q).to_multiset().add(
            items.filter(r).to_multiset(),
        ));
    } else {
        assert(items.filter(p).to_multiset() =~= items.filter(q).to_multiset().add(
            items.filter(r).to_multiset(),
        ));
    }
}

/// Grouping by domain lists every source once: the list is a rearrangement of the sources.
pub proof fn lemma_every_source_listed(items: Seq<JsonV>)
    ensures
        grouped(items, domain_order(items)).to_multiset() == items.to_multiset(),
        grouped(items, domain_order(items)).len() == items.len(),
{
    let order = domain_order(items);
    let p = |item: JsonV| order.contains(domain_of(item));
    lemma_domains(items);
    lemma_grouped(items, order);
    assert forall|i: int| 0 <= i < items.len() implies p(#[trigger] items[i]) by {
        assert(order.contains(domain_of(items[i])));
    }
    lemma_filter_all(items, p);
}

proof fn lemma_filter_all(items: Seq<JsonV>, p: spec_fn(JsonV) -> bool)
    requires
        forall|i: int| 0 <= i < items.len() ==> p(#[trigger] items[i]),
    ensures
        items.filter(p) == items,
    decreases items.len(),
{
    reveal(Seq::filter);
    if items.len() > 0 {
        assert(forall|i: int| 0 <= i < items.len() - 1 ==> items.drop_last()[i] == items[i]);
        lemma_filter_all(items.drop_last(), p);
        assert(p(items[items.len() - 1]));
        assert(items.drop_last().push(items.last()) =~= items);
    }
}

proof fn lemma_group_shows(items: Seq<JsonV>, start: nat, expose_refs: bool, i: int)
    requires
        0 <= i < items.len(),
    ensures
        group_lines(items, start, expose_refs).contains(
            first_line((start + i) as nat, items[i], expose_refs),
        ),
    decreases items.len(),
{
    let before = items.drop_last();
    let last = item_lines((start + items.len() - 1) as nat, items.last(), expose_refs);
    let above = group_lines(before, start, expose_refs);
    let line = first_line((start + i) as nat, items[i], expose_refs);
    if i < before.len() {
        lemma_group_shows(before, start, expose_refs, i);
        let k = above.index_of(line);
        assert((above + last)[k] == line);
    } else {
        assert(last[0] == line);
        assert((above + last)[above.len() as int] == line);
    }
}

proof fn lemma_list_shows(
    items: Seq<JsonV>,
    domains: Seq<Seq<char>>,
    expose_refs: bool,
    k: int,
    i: int,
)
    requires
        0 <= k < domains.len(),
        0 <= i < of_domain(items, domains[k]).len(),
    ensures
        exists|n: nat|
            1 <= n <= grouped(items, domains).len() && list_lines(
                items,
                domains,
                expose_refs,
            ).contains(#[trigger] first_line(n, of_domain(items, domains[k])[i], expose_refs)),
    decreases domains.len(),
{
    let before = domains.drop_last();
    let above = list_lines(items, before, expose_refs);
    let header = header_lines(domains.last());
    let start = grouped(items, before).len() + 1;
    let own = group_lines(of_domain(items, domains.last()), start, expose_refs);
    if k < before.len() {
        lemma_list_shows(items, before, expose_refs, k, i);
        let n = choose|n: nat|
            1 <= n <= grouped(items, before).len() && above.contains(
                #[trigger] first_line(n, of_domain(items, before[k])[i], expose_refs),
            );
        let line = first_line(n, of_domain(items, domains[k])[i], expose_refs);
        let p = above.index_of(line);
        assert((above + header + own)[p] == line);
        assert(list_lines(items, domains, expose_refs).contains(line));
    } else {
        lemma_group_shows(of_domain(items, domains.last()), start, expose_refs, i);
        let line = first_line((start + i) as nat, of_domain(items, domains[k])[i], expose_refs);
        let p = own.index_of(line);
        assert((above + header + own)[above.len() + header.len() + p] == line);
        assert(list_lines(items, domains, expose_refs).contains(line));
    }
}

/// Every source of an answer has its line in the text, with a number from one to the number of
/// sources and, where references are shown, its reference.
pub proof fn lemma_source_shown(norm: JsonV, expose_refs: bool, j: int)
    requires
        0 <= j < items_of(norm).len(),
    ensures
        exists|n: nat|
            1 <= n <= items_of(norm).len() && answer_lines(norm, expose_refs).contains(
                #[trigger] first_line(n, items_of(norm)[j], expose_refs),
            ),
{
    let items = items_of(norm);
    let order = domain_order(items);
    let domain = domain_of(items[j]);
    lemma_domains(items);
    assert(order.contains(domain));
    let k = order.index_of(domain);
    let p = |item: JsonV| domain_of(item) == domain;
    items.lemma_filter_contains(p, j);
    assert(of_domain(items, domain).contains(items[j]));
    let i = of_domain(items, domain).index_of(items[j]);
    lemma_list_shows(items, order, expose_refs, k, i);
    lemma_grouped(items, order);
    let n = choose|n: nat|
        1 <= n <= grouped(items, order).len() && list_lines(items, order, expose_refs).contains(
            #[trigger] first_line(n, of_domain(items, order[k])[i], expose_refs),
        );
    let line = first_line(n, items[j], expose_refs);
    let list = list_lines(items, order, expose_refs);
    let at = list.index_of(line);
    let all = answer_lines(norm, expose_refs);
    assert(all[all.len() - list.len() + at] == line);
}

proof fn lemma_same_list(
    items: Seq<JsonV>,
    other: Seq<JsonV>,
    domains: Seq<Seq<char>>,
    expose_refs: bool,
)
    requires
        forall|d: Seq<char>| #[trigger] of_domain(items, d) == of_domain(other, d),
    ensures
        grouped(items, domains) == grouped(other, domains),
        list_lines(items, domains, expose_refs) == list_lines(other, domains, expose_refs),
    decreases domains.len(),
{
    if domains.len() > 0 {
        lemma_same_list(items, other, domains.drop_last(), expose_refs);
        assert(of_domain(items, domains.last()) == of_domain(other, domains.last()));
    }
}

proof fn lemma_no_domains(items: Seq<JsonV>)
    ensures
        (domain_order(items).len() == 0) == (items.len() == 0),
{
    lemma_domains(items);
    if items.len() > 0 {
        assert(domain_order(items).contains(domain_of(items[0])));
    }
}

/// Only the order of the domains and the order within each domain count: sources that are put in
/// another order, with those two kept, give the same text.
pub proof fn lemma_reordered(norm: JsonV, other: JsonV, expose_refs: bool)
    requires
        norm.str_at("output"@) == other.str_at("output"@),
        domain_order(items_of(norm)) == domain_order(items_of(other)),
        forall|d: Seq<char>| #[trigger]
            of_domain(items_of(norm), d) == of_domain(items_of(other), d),
    ensures
        formatted(norm, expose_refs) == formatted(other, expose_refs),
{
    let items = items_of(norm);
    lemma_no_domains(items);
    lemma_no_domains(items_of(other));
    lemma_same_list(items, items_of(other), domain_order(items), expose_refs);
}

/// Two sources are the same but for their references.
pub open spec fn same_but_reference(a: JsonV, b: JsonV) -> bool {
    &&& a.str_at("title"@) == b.str_at("title"@)
    &&& a.str_at("url"@) == b.str_at("url"@)
    &&& a.str_at("snippet"@) == b.str_at("snippet"@)
    &&& a.str_at("domain"@) == b.str_at("domain"@)
}

/// Two lists of sources are the same but for the references.
pub open spec fn same_but_references(a: Seq<JsonV>, b: Seq<JsonV>) -> bool {
    a.len() == b.len() && forall|i: int|
        0 <= i < a.len() ==> same_but_reference(#[trigger] a[i], b[i])
}

proof fn lemma_alike_last(a: Seq<JsonV>, b: Seq<JsonV>)
    requires
        same_but_references(a, b),
        a.len() > 0,
    ensures
        same_but_references(a.drop_last(), b.drop_last()),
        same_but_reference(a.last(), b.last()),
{
    assert(same_but_reference(a[a.len() - 1], b[a.len() - 1]));
    assert forall|i: int| 0 <= i < a.len() - 1 implies same_but_reference(
        #[trigger] a.drop_last()[i],
        b.drop_last()[i],
    ) by {
        assert(same_but_reference(a[i], b[i]));
    }
}

proof fn lemma_alike_domains(a: Seq<JsonV>, b: Seq<JsonV>)
    requires
        same_but_references(a, b),
    ensures
        domain_order(a) == domain_order(b),
    decreases a.len(),
{
    if a.len() > 0 {
        lemma_alike_last(a, b);
        lemma_alike_domains(a.drop_last(), b.drop_last());
    }
}

proof fn lemma_alike_of_domain(a: Seq<JsonV>, b: Seq<JsonV>, domain: Seq<char>)
    requires
        same_but_references(a, b),
    ensures
        same_but_references(of_domain(a, domain), of_domain(b, domain)),
    decreases a.len(),
{
    reveal(Seq::filter);
    if a.len() > 0 {
        lemma_alike_last(a, b);
        lemma_alike_of_domain(a.drop_last(), b.drop_last(), domain);
    }
}

proof fn lemma_alike_group(a: Seq<JsonV>, b: Seq<JsonV>, start: nat)
    requires
        same_but_references(a, b),
    ensures
        group_lines(a, start, false) == group_lines(b, start, false),
    decreases a.len(),
{
    if a.len() > 0 {
        lemma_alike_last(a, b);
        lemma_alike_group(a.drop_last(), b.drop_last(), start);
    }
}

proof fn lemma_alike_list(a: Seq<JsonV>, b: Seq<JsonV>, domains: Seq<Seq<char>>)
    requires
        same_but_references(a, b),
    ensures
        grouped(a, domains).len() == grouped(b, domains).len(),
        list_lines(a, domains, false) == list_lines(b, domains, false),
    decreases domains.len(),
{
    if domains.len() > 0 {
        let before = domains.drop_last();
        lemma_alike_list(a, b, before);
        lemma_alike_of_domain(a, b, domains.last());
        lemma_alike_group(
            of_domain(a, domains.last()),
            of_domain(b, domains.last()),
            grouped(a, before).len() + 1,
        );
    }
}

/// References that are not shown have no influence on the text.
pub proof fn lemma_hidden_references(norm: JsonV, other: JsonV)
    requires
        norm.str_at("output"@) == other.str_at("output"@),
        same_but_references(items_of(norm), items_of(other)),
    ensures
        formatted(norm, false) == formatted(other, false),
{
    let items = items_of(norm);
    lemma_alike_domains(items, items_of(other));
    lemma_alike_list(items, items_of(other), domain_order(items));
}

// ---------------------------------------------------------------------------
// Laws of the lines
// ---------------------------------------------------------------------------
/// What is written of a source: its number, its reference where references are shown, and its
/// title or else its address; then its address, or else its domain; then its snippet. What it has
/// is always written, and what it lacks leaves no line.
pub proof fn lemma_lines_of_source(n: nat, item: JsonV, expose_refs: bool)
    ensures
        ({
            let lines = item_lines(n, item, expose_refs);
            let number = "["@ + numeral(n, 10) + "] "@;
            let name = match (item.str_at("title"@), item.str_at("url"@)) {
                (Some(title), _) => title,
                (None, Some(url)) => url,
                (None, None) => "(untitled)"@,
            };
            let places: int = if item.str_at("url"@) is Some || item.str_at("domain"@) is Some {
                1
            } else {
                0
            };
            &&& lines.len() == 1 + places + (if item.str_at("snippet"@) is Some {
                1int
            } else {
                0
            })
            &&& expose_refs && item.str_at("ref_id"@) is Some ==> lines[0] == number + "(ref: "@
                + item.str_at("ref_id"@)->0 + ") "@ + name
            &&& !expose_refs || item.str_at("ref_id"@) is None ==> lines[0] == number + name
            &&& item.str_at("url"@) matches Some(url) ==> lines[1] == "    "@ + url
            &&& item.str_at("url"@) is None && item.str_at("domain"@) is Some ==> lines[1]
                == "    "@ + item.str_at("domain"@)->0
            &&& item.str_at("snippet"@) matches Some(s) ==> lines[1 + places] == "    "@ + s
        }),
{
}

/// A domain is named above its sources, between dashes; no domain, no line.
pub proof fn lemma_header(domain: Seq<char>)
    ensures
        domain.len() > 0 ==> header_lines(domain) == seq!["— "@ + domain + " —"@],
        domain.len() == 0 ==> header_lines(domain).len() == 0,
{
}

/// Some lines stand in others, one after the other, from `p` on.
pub open spec fn lines_at(all: Seq<Seq<char>>, block: Seq<Seq<char>>, p: int) -> bool {
    0 <= p && p + block.len() <= all.len() && all.subrange(p, p + block.len()) == block
}

proof fn lemma_lines_inside(
    before: Seq<Seq<char>>,
    part: Seq<Seq<char>>,
    after: Seq<Seq<char>>,
    block: Seq<Seq<char>>,
    p: int,
)
    requires
        lines_at(part, block, p),
    ensures
        lines_at(before + part + after, block, before.len() + p),
{
    let all = before + part + after;
    let q = before.len() + p;
    assert forall|k: int| 0 <= k < block.len() implies all[q + k] == block[k] by {
        assert(part.subrange(p, p + block.len())[k] == part[p + k]);
    }
    assert(all.subrange(q, q + block.len()) =~= block);
}

proof fn lemma_group_holds(items: Seq<JsonV>, start: nat, expose_refs: bool, i: int) -> (p: int)
    requires
        0 <= i < items.len(),
    ensures
        lines_at(
            group_lines(items, start, expose_refs),
            item_lines((start + i) as nat, items[i], expose_refs),
            p,
        ),
    decreases items.len(),
{
    let before = items.drop_last();
    let last = item_lines((start + items.len() - 1) as nat, items.last(), expose_refs);
    let above = group_lines(before, start, expose_refs);
    let none = Seq::<Seq<char>>::empty();
    let block = item_lines((start + i) as nat, items[i], expose_refs);
    assert(above + last + none =~= above + last);
    if i < before.len() {
        let p = lemma_group_holds(before, start, expose_refs, i);
        lemma_lines_inside(none, above, last, block, p);
        assert(none + above + last =~= above + last);
        p
    } else {
        assert(last.subrange(0, last.len() as int) =~= last);
        lemma_lines_inside(above, last, none, block, 0);
        above.len() as int
    }
}

proof fn lemma_list_holds(
    items: Seq<JsonV>,
    domains: Seq<Seq<char>>,
    expose_refs: bool,
    k: int,
    i: int,
) -> (r: (nat, int))
    requires
        0 <= k < domains.len(),
        0 <= i < of_domain(items, domains[k]).len(),
    ensures
        1 <= r.0 <= grouped(items, domains).len(),
        lines_at(
            list_lines(items, domains, expose_refs),
            item_lines(r.0, of_domain(items, domains[k])[i], expose_refs),
            r.1,
        ),
    decreases domains.len(),
{
    let before = domains.drop_last();
    let above = list_lines(items, before, expose_refs);
    let header = header_lines(domains.last());
    let start = grouped(items, before).len() + 1;
    let own = group_lines(of_domain(items, domains.last()), start, expose_refs);
    let none = Seq::<Seq<char>>::empty();
    if k < before.len() {
        let (n, p) = lemma_list_holds(items, before, expose_refs, k, i);
        lemma_lines_inside(
            none,
            above,
            header + own,
            item_lines(n, of_domain(items, domains[k])[i], expose_refs),
            p,
        );
        assert(none + above + (header + own) =~= above + header + own);
        (n, p)
    } else {
        let p = lemma_group_holds(of_domain(items, domains.last()), start, expose_refs, i);
        let n = (start + i) as nat;
        lemma_lines_inside(
            above + header,
            own,
            none,
            item_lines(n, of_domain(items, domains[k])[i], expose_refs),
            p,
        );
        assert(above + header + own + none =~= above + header + own);
        (n, (above + header).len() + p)
    }
}

/// Every source of an answer stands in it with all its lines, one after the other: title,
/// reference where references are shown, address and snippet.
pub proof fn lemma_source_written(norm: JsonV, expose_refs: bool, j: int) -> (r: (nat, int))
    requires
        0 <= j < items_of(norm).len(),
    ensures
        ({
            let item = items_of(norm)[j];
            let lines = answer_lines(norm, expose_refs);
            let p = r.1;
            let number = "["@ + numeral(r.0, 10) + "] "@;
            let has_place = item.str_at("url"@) is Some || item.str_at("domain"@) is Some;
            &&& 1 <= r.0 <= items_of(norm).len()
            &&& 0 <= p < lines.len()
            &&& item.str_at("title"@) matches Some(title) ==> (if expose_refs && item.str_at(
                "ref_id"@,
            ) is Some {
                lines[p] == number + "(ref: "@ + item.str_at("ref_id"@)->0 + ") "@ + title
            } else {
                lines[p] == number + title
            })
            &&& item.str_at("url"@) matches Some(url) ==> p + 1 < lines.len() && lines[p + 1]
                == "    "@ + url
            &&& item.str_at("snippet"@) matches Some(s) ==> (if has_place {
                p + 2 < lines.len() && lines[p + 2] == "    "@ + s
            } else {
                p + 1 < lines.len() && lines[p + 1] == "    "@ + s
            })
            &&& occurs(
                formatted(norm, expose_refs),
                joined(item_lines(r.0, item, expose_refs), "\n"@),
            )
        }),
{
    let items = items_of(norm);
    let item = items[j];
    let order = domain_order(items);
    let domain = domain_of(item);
    lemma_domains(items);
    assert(order.contains(domain));
    let k = order.index_of(domain);
    let p = |item: JsonV| domain_of(item) == domain;
    items.lemma_filter_contains(p, j);
    assert(of_domain(items, domain).contains(item));
    let i = of_domain(items, domain).index_of(item);
    lemma_grouped(items, order);
    let list = list_lines(items, order, expose_refs);
    let all = answer_lines(norm, expose_refs);
    let above = all.subrange(0, all.len() - list.len());
    let none = Seq::<Seq<char>>::empty();
    assert(above + list + none =~= all);
    let (n, at) = lemma_list_holds(items, order, expose_refs, k, i);
    let block = item_lines(n, item, expose_refs);
    lemma_lines_inside(above, list, none, block, at);
    let q = above.len() + at;
    assert forall|m: int| 0 <= m < block.len() implies all[q + m] == block[m] by {
        assert(all.subrange(q, q + block.len())[m] == all[q + m]);
    }
    lemma_lines_of_source(n, item, expose_refs);
    assert(all[q + 0] == block[0]);
    let before = all.subrange(0, q);
    let after = all.subrange(q + block.len(), all.len() as int);
    assert(before + block + after =~= all);
    lemma_joined_stretch(before, block, after, "\n"@);
    lemma_stands_in_text(norm, expose_refs, joined(block, "\n"@));
    (n, q)
}

proof fn lemma_stands_in_text(norm: JsonV, expose_refs: bool, part: Seq<char>)
    requires
        answer_lines(norm, expose_refs).len() > 0,
        occurs(joined(answer_lines(norm, expose_refs), "\n"@), part),
    ensures
        occurs(formatted(norm, expose_refs), part),
{
    let text = joined(answer_lines(norm, expose_refs), "\n"@);
    let out = formatted(norm, expose_refs);
    let i = choose|i: int| occurs_at(text, part, i);
    assert(out.subrange(i, i + part.len()) =~= text.subrange(i, i + part.len()));
    assert(occurs_at(out, part, i));
}

/// The text of an answer is its lines, and the note on links where references are shown and a
/// marker of a link stands in it; an answer without lines says that there are no results.
pub proof fn lemma_text_of_lines(norm: JsonV, expose_refs: bool)
    ensures
        ({
            let lines = answer_lines(norm, expose_refs);
            let text = joined(lines, "\n"@);
            let note =
                "\n\n（文档内容里 [turn0searchN: ...] / [cN: ...] 标记即是可点击的链接元素，其 ref_id（如 turn0searchN）可直接用于 open/click 跟随该链接继续深挖）"@;
            &&& lines.len() == 0 ==> formatted(norm, expose_refs) == "No results returned."@
            &&& lines.len() > 0 && !expose_refs ==> formatted(norm, expose_refs) == text
            &&& lines.len() > 0 && expose_refs && has_link_marker(text) ==> formatted(
                norm,
                expose_refs,
            ) == text + note
            &&& lines.len() > 0 && expose_refs && !has_link_marker(text) ==> formatted(
                norm,
                expose_refs,
            ) == text
        }),
{
}

/// An answer without sources is its text, in one piece.
pub proof fn lemma_text_alone(norm: JsonV, expose_refs: bool)
    requires
        norm.array_at("results"@) is None || norm.array_at("results"@)->0.len() == 0,
    ensures
        norm.str_at("output"@) matches Some(text) ==> text.len() > 0 ==> answer_lines(
            norm,
            expose_refs,
        ) == seq![text],
        norm.str_at("output"@) is None || norm.str_at("output"@)->0.len() == 0 ==> answer_lines(
            norm,
            expose_refs,
        ).len() == 0,
{
}

/// `other` is the answer `norm` with one more source behind the others.
pub open spec fn has_one_more(norm: JsonV, other: JsonV, item: JsonV) -> bool {
    &&& norm.str_at("output"@) == other.str_at("output"@)
    &&& items_of(other) == items_of(norm).push(item)
}

proof fn lemma_domain_of_push(items: Seq<JsonV>, item: JsonV, domain: Seq<char>)
    ensures
        domain_of(item) == domain ==> of_domain(items.push(item), domain) == of_domain(
            items,
            domain,
        ).push(item),
        domain_of(item) != domain ==> of_domain(items.push(item), domain) == of_domain(
            items,
            domain,
        ),
{
    reveal(Seq::filter);
    assert(items.push(item).drop_last() =~= items);
}

proof fn lemma_list_of_push(
    items: Seq<JsonV>,
    item: JsonV,
    domains: Seq<Seq<char>>,
    expose_refs: bool,
)
    requires
        !domains.contains(domain_of(item)),
    ensures
        grouped(items.push(item), domains) == grouped(items, domains),
        list_lines(items.push(item), domains, expose_refs) == list_lines(
            items,
            domains,
            expose_refs,
        ),
    decreases domains.len(),
{
    if domains.len() > 0 {
        let before = domains.drop_last();
        assert(domains.contains(domains.last()));
        assert forall|d: Seq<char>| before.contains(d) implies domains.contains(d) by {
            let k = before.index_of(d);
            assert(domains[k] == d);
        }
        lemma_list_of_push(items, item, before, expose_refs);
        lemma_domain_of_push(items, item, domains.last());
    }
}

proof fn lemma_group_of_one(item: JsonV, n: nat, expose_refs: bool)
    ensures
        group_lines(Seq::<JsonV>::empty().push(item), n, expose_refs) == item_lines(
            n,
            item,
            expose_refs,
        ),
{
    let one = Seq::<JsonV>::empty().push(item);
    assert(one.drop_last() =~= Seq::<JsonV>::empty());
    reveal_with_fuel(group_lines, 2);
    assert(group_lines(one, n, expose_refs) =~= item_lines(n, item, expose_refs));
}

proof fn lemma_order_of_push(items: Seq<JsonV>, item: JsonV)
    ensures
        domain_order(items).contains(domain_of(item)) ==> domain_order(items.push(item))
            == domain_order(items),
        !domain_order(items).contains(domain_of(item)) ==> domain_order(items.push(item))
            == domain_order(items).push(domain_of(item)),
{
    assert(items.push(item).drop_last() =~= items);
}

/// A source of a domain that no source before it has is listed behind the others, under a line of
/// its own for the domain, with the next number.
pub proof fn lemma_source_of_new_domain(
    norm: JsonV,
    other: JsonV,
    item: JsonV,
    expose_refs: bool,
)
    requires
        has_one_more(norm, other, item),
        items_of(norm).len() > 0,
        forall|i: int|
            0 <= i < items_of(norm).len() ==> domain_of(#[trigger] items_of(norm)[i])
                != domain_of(item),
    ensures
        answer_lines(other, expose_refs) == answer_lines(norm, expose_refs) + header_lines(
            domain_of(item),
        ) + item_lines(items_of(norm).len() + 1, item, expose_refs),
{
    let items = items_of(norm);
    let more = items.push(item);
    let order = domain_order(items);
    let domain = domain_of(item);
    lemma_domains(items);
    assert(more.drop_last() =~= items);
    assert(!order.contains(domain));
    assert(domain_order(more) == order.push(domain));
    assert(order.push(domain).drop_last() =~= order);
    lemma_list_of_push(items, item, order, expose_refs);
    lemma_domain_of_push(items, item, domain);
    lemma_none_of_domain(items, domain);
    lemma_every_source_listed(items);
    let none = Seq::<JsonV>::empty();
    let one = none.push(item);
    assert(of_domain(more, domain) =~= one);
    let n = items.len() + 1;
    lemma_group_of_one(item, n, expose_refs);
    assert(answer_lines(other, expose_refs) =~= answer_lines(norm, expose_refs) + header_lines(
        domain,
    ) + item_lines(n, item, expose_refs));
}

proof fn lemma_none_of_domain(items: Seq<JsonV>, domain: Seq<char>)
    requires
        forall|i: int| 0 <= i < items.len() ==> domain_of(#[trigger] items[i]) != domain,
    ensures
        of_domain(items, domain) == Seq::<JsonV>::empty(),
    decreases items.len(),
{
    reveal(Seq::filter);
    if items.len() > 0 {
        assert(forall|i: int| 0 <= i < items.len() - 1 ==> items.drop_last()[i] == items[i]);
        assert(domain_of(items[items.len() - 1]) != domain);
        lemma_none_of_domain(items.drop_last(), domain);
    }
}

/// The first source of an answer is listed below its text, an empty line and the word for sources.
pub proof fn lemma_first_source(norm: JsonV, other: JsonV, item: JsonV, expose_refs: bool)
    requires
        has_one_more(norm, other, item),
        items_of(norm).len() == 0,
    ensures
        answer_lines(other, expose_refs) == answer_lines(norm, expose_refs) + seq![
            Seq::<char>::empty(),
            "Sources:"@,
        ] + header_lines(domain_of(item)) + item_lines(1, item, expose_refs),
{
    let items = items_of(norm);
    let more = items.push(item);
    let domain = domain_of(item);
    let none = Seq::<Seq<char>>::empty();
    let one = none.push(domain);
    assert(more.drop_last() =~= items);
    assert(domain_order(items) =~= none);
    assert(domain_order(more) =~= one);
    assert(one.drop_last() =~= none);
    lemma_domain_of_push(items, item, domain);
    lemma_none_of_domain(items, domain);
    let own = Seq::<JsonV>::empty().push(item);
    assert(of_domain(more, domain) =~= own);
    assert(grouped(more, none).len() == 0);
    lemma_group_of_one(item, 1, expose_refs);
    reveal_with_fuel(list_lines, 2);
    assert(list_lines(more, one, expose_refs) =~= header_lines(domain) + item_lines(
        1,
        item,
        expose_refs,
    ));
    assert(answer_lines(other, expose_refs) =~= answer_lines(norm, expose_refs) + seq![
        Seq::<char>::empty(),
        "Sources:"@,
    ] + header_lines(domain) + item_lines(1, item, expose_refs));
}

/// From `k` on all sources are of one domain, and none before is.
pub open spec fn ends_with_domain(items: Seq<JsonV>, domain: Seq<char>, k: int) -> bool {
    &&& 0 <= k < items.len()
    &&& forall|i: int| 0 <= i < k ==> domain_of(#[trigger] items[i]) != domain
    &&& forall|i: int| k <= i < items.len() ==> domain_of(#[trigger] items[i]) == domain
}

proof fn lemma_last_domain(items: Seq<JsonV>, domain: Seq<char>, k: int)
    requires
        ends_with_domain(items, domain, k),
    ensures
        domain_order(items).len() > 0,
        domain_order(items).last() == domain,
    decreases items.len(),
{
    let before = items.drop_last();
    let last = items.len() - 1;
    assert(domain_of(items[last]) == domain);
    assert(forall|i: int| 0 <= i < last ==> before[i] == items[i]);
    if k < last {
        lemma_last_domain(before, domain, k);
        assert(domain_order(before)[domain_order(before).len() - 1] == domain);
    } else {
        lemma_domains(before);
    }
}

/// A source of the domain that the last sources have is listed behind them, with the next number.
pub proof fn lemma_source_of_last_domain(
    norm: JsonV,
    other: JsonV,
    item: JsonV,
    k: int,
    expose_refs: bool,
)
    requires
        has_one_more(norm, other, item),
        ends_with_domain(items_of(norm), domain_of(item), k),
    ensures
        answer_lines(other, expose_refs) == answer_lines(norm, expose_refs) + item_lines(
            items_of(norm).len() + 1,
            item,
            expose_refs,
        ),
{
    let items = items_of(norm);
    lemma_list_goes_on(items, item, k, expose_refs);
    let n = items.len() + 1;
    assert(answer_lines(other, expose_refs) =~= answer_lines(norm, expose_refs) + item_lines(
        n,
        item,
        expose_refs,
    ));
}

proof fn lemma_list_goes_on(items: Seq<JsonV>, item: JsonV, k: int, expose_refs: bool)
    requires
        ends_with_domain(items, domain_of(item), k),
    ensures
        list_lines(items.push(item), domain_order(items.push(item)), expose_refs) == list_lines(
            items,
            domain_order(items),
            expose_refs,
        ) + item_lines(items.len() + 1, item, expose_refs),
{
    let order = domain_order(items);
    let domain = domain_of(item);
    lemma_domains(items);
    lemma_last_domain(items, domain, k);
    assert(order[order.len() - 1] == domain);
    assert(order.contains(domain));
    lemma_order_of_push(items, item);
    let before = order.drop_last();
    assert(!before.contains(domain)) by {
        if before.contains(domain) {
            let m = before.index_of(domain);
            assert(order[m] == order[order.len() - 1]);
        }
    }
    lemma_list_of_push(items, item, before, expose_refs);
    lemma_domain_of_push(items, item, domain);
    lemma_every_source_listed(items);
    let own = of_domain(items, domain);
    let start = grouped(items, before).len() + 1;
    assert(grouped(items, order).len() == grouped(items, before).len() + own.len());
    lemma_group_of_push(own, item, start, expose_refs);
    let above = list_lines(items, before, expose_refs) + header_lines(domain);
    let mine = group_lines(own, start, expose_refs);
    let last = item_lines(items.len() + 1, item, expose_refs);
    assert(above + (mine + last) =~= above + mine + last);
}

proof fn lemma_group_of_push(own: Seq<JsonV>, item: JsonV, start: nat, expose_refs: bool)
    ensures
        group_lines(own.push(item), start, expose_refs) == group_lines(own, start, expose_refs)
            + item_lines(start + own.len(), item, expose_refs),
{
    assert(own.push(item).drop_last() =~= own);
}

proof fn lemma_order_goes_on(p: Seq<JsonV>, q: Seq<JsonV>, tail: Seq<JsonV>)
    requires
        domain_order(p) == domain_order(q),
    ensures
        domain_order(p + tail) == domain_order(q + tail),
    decreases tail.len(),
{
    if tail.len() > 0 {
        lemma_order_goes_on(p, q, tail.drop_last());
        assert((p + tail).drop_last() =~= p + tail.drop_last());
        assert((q + tail).drop_last() =~= q + tail.drop_last());
    } else {
        assert(p + tail =~= p);
        assert(q + tail =~= q);
    }
}

/// Two neighbours of different domains may change places, where a source before them already has
/// the domain of the second: sources are listed by domain, in the order in which the domains are
/// first seen.
pub proof fn lemma_neighbours_changed(
    norm: JsonV,
    other: JsonV,
    before: Seq<JsonV>,
    x: JsonV,
    y: JsonV,
    after: Seq<JsonV>,
    k: int,
    expose_refs: bool,
)
    requires
        norm.str_at("output"@) == other.str_at("output"@),
        items_of(norm) == before + seq![x, y] + after,
        items_of(other) == before + seq![y, x] + after,
        domain_of(x) != domain_of(y),
        0 <= k < before.len(),
        domain_of(before[k]) == domain_of(y),
    ensures
        formatted(norm, expose_refs) == formatted(other, expose_refs),
{
    let xy = before + seq![x, y];
    let yx = before + seq![y, x];
    lemma_domains(before);
    assert(domain_order(before).contains(domain_of(y)));
    assert(xy =~= before.push(x).push(y));
    assert(yx =~= before.push(y).push(x));
    let order = domain_order(before);
    lemma_order_of_push(before, x);
    lemma_order_of_push(before, y);
    lemma_order_of_push(before.push(x), y);
    lemma_order_of_push(before.push(y), x);
    let m = order.index_of(domain_of(y));
    assert(order.push(domain_of(x))[m] == domain_of(y));
    assert(order.push(domain_of(x)).contains(domain_of(y)));
    assert(domain_order(xy) == domain_order(yx));
    lemma_order_goes_on(xy, yx, after);
    assert forall|d: Seq<char>| #[trigger]
        of_domain(items_of(norm), d) == of_domain(items_of(other), d) by {
        let p = |item: JsonV| domain_of(item) == d;
        Seq::filter_distributes_over_add(xy, after, p);
        Seq::filter_distributes_over_add(yx, after, p);
        lemma_domain_of_push(before.push(x), y, d);
        lemma_domain_of_push(before, x, d);
        lemma_domain_of_push(before.push(y), x, d);
        lemma_domain_of_push(before, y, d);
    }
    lemma_reordered(norm, other, expose_refs);
}

/// Sources are grouped by the domain that they give, letter for letter; those that give none are
/// a group of their own.
pub proof fn lemma_domain_given(item: JsonV)
    ensures
        item.str_at("domain"@) matches Some(d) ==> domain_of(item) == d,
        item.str_at("domain"@) is None ==> domain_of(item).len() == 0,
{
}

} // verus!
