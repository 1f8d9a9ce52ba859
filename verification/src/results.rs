//! What the search service answers: a text, and the sources that it rests on.

use vstd::prelude::*;

use crate::citations::clean_output;
use crate::citations::cleaned;
use crate::citations::Refs;
use crate::json::empty_object;
use crate::json::items_view;
use crate::json::lemma_items_view;
use crate::json::Json;
use crate::json::JsonV;
use crate::text::contains;
use crate::text::occurs;
use crate::text::occurs_at;
use crate::text::same;
use crate::text::texts;

verus! {

/// The text, or an empty one where there is none.
pub open spec fn or_empty(s: Option<Seq<char>>) -> Seq<char> {
    match s {
        Some(t) => t,
        None => Seq::empty(),
    }
}

/// The text, or null where there is none.
pub open spec fn or_null(s: Option<Seq<char>>) -> JsonV {
    match s {
        Some(t) => JsonV::Str(t),
        None => JsonV::Null,
    }
}

/// What a source is told apart by: its reference, else its address, else nothing.
pub open spec fn source_key(item: JsonV) -> Seq<char> {
    match item.str_at("ref_id"@) {
        Some(id) => id,
        None => or_empty(item.str_at("url"@)),
    }
}

/// A source with the five members that are kept of it.
pub open spec fn source_of(item: JsonV) -> JsonV {
    empty_object().with("url"@, or_null(item.str_at("url"@))).with(
        "ref_id"@,
        or_null(item.str_at("ref_id"@)),
    ).with("title"@, or_null(item.str_at("title"@))).with(
        "snippet"@,
        or_null(item.str_at("snippet"@)),
    ).with("domain"@, or_null(item.str_at("domain"@)))
}

/// An item is kept where it has a key and no earlier item has the same.
pub open spec fn is_first_of_its_key(items: Seq<JsonV>, i: int) -> bool {
    &&& source_key(items[i]).len() > 0
    &&& forall|j: int| 0 <= j < i ==> source_key(#[trigger] items[j]) != source_key(items[i])
}

/// The sources of the items: for each key the first item that has it, in order.
pub open spec fn sources(items: Seq<JsonV>) -> Seq<JsonV>
    decreases items.len(),
{
    if items.len() == 0 {
        Seq::empty()
    } else if is_first_of_its_key(items, items.len() - 1) {
        sources(items.drop_last()).push(source_of(items.last()))
    } else {
        sources(items.drop_last())
    }
}

/// The title and the domain of each reference; a later item takes the place of an earlier one.
pub open spec fn references(items: Seq<JsonV>) -> Map<Seq<char>, (Seq<char>, Seq<char>)>
    decreases items.len(),
{
    if items.len() == 0 {
        Map::empty()
    } else {
        let before = references(items.drop_last());
        let item = items.last();
        match item.str_at("ref_id"@) {
            Some(id) => before.insert(
                id,
                (or_empty(item.str_at("title"@)), or_empty(item.str_at("domain"@))),
            ),
            None => before,
        }
    }
}

/// The items of an answer.
pub open spec fn items_of(body: JsonV) -> Seq<JsonV> {
    match body.array_at("results"@) {
        Some(items) => items,
        None => Seq::empty(),
    }
}

/// An answer with its text cleaned and its sources told apart.
pub open spec fn normalized(body: JsonV) -> JsonV {
    empty_object().with(
        "output"@,
        JsonV::Str(cleaned(or_empty(body.str_at("output"@)), references(items_of(body)))),
    ).with("results"@, JsonV::Array(sources(items_of(body))))
}

pub(crate) fn holds(list: &Vec<String>, s: &str) -> (r: bool)
    ensures
        r == texts(list@).contains(s@),
{
    let mut i: usize = 0;
    while i < list.len()
        invariant
            i <= list.len(),
            forall|k: int| 0 <= k < i ==> texts(list@)[k] != s@,
        decreases list.len() - i,
    {
        if same(list[i].as_str(), s) {
            proof {
                assert(texts(list@)[i as int] == s@);
            }
            return true;
        }
        i = i + 1;
    }
    false
}

pub(crate) fn owned_or_empty(s: Option<&str>) -> (r: String)
    ensures
        r@ == or_empty(
            match s {
                Some(t) => Some(t@),
                None => None,
            },
        ),
{
    match s {
        Some(t) => t.to_string(),
        None => String::new(),
    }
}

fn keep_source(item: &Json) -> (r: Json)
    ensures
        r@ == source_of(item@),
{
    Json::object().with("url", Json::text_or_null(item.str_at("url"))).with(
        "ref_id",
        Json::text_or_null(item.str_at("ref_id")),
    ).with("title", Json::text_or_null(item.str_at("title"))).with(
        "snippet",
        Json::text_or_null(item.str_at("snippet")),
    ).with("domain", Json::text_or_null(item.str_at("domain")))
}

/// Collects the references of the items, and one source for each key.
pub fn collect_sources(items: &Vec<Json>) -> (r: (Refs, Vec<Json>))
    ensures
        r.0@ == references(items_view(items@)),
        items_view(r.1@) == sources(items_view(items@)),
{
    let mut refs = Refs::new();
    let mut kept: Vec<Json> = Vec::new();
    let mut seen: Vec<String> = Vec::new();
    let ghost all = items_view(items@);
    let mut i: usize = 0;
    while i < items.len()
        invariant
            i <= items.len(),
            all == items_view(items@),
            refs@ == references(all.take(i as int)),
            items_view(kept@) == sources(all.take(i as int)),
            forall|k: Seq<char>| #[trigger]
                texts(seen@).contains(k) <==> k.len() > 0 && exists|j: int|
                    0 <= j < i && source_key(#[trigger] all[j]) == k,
        decreases items.len() - i,
    {
        let item = &items[i];
        proof {
            lemma_items_view(items@);
            assert(all.take(i + 1).drop_last() =~= all.take(i as int));
            assert(all.take(i + 1).last() == item@);
        }
        let id = item.str_at("ref_id");
        if let Some(rid) = id {
            refs.insert(
                rid.to_string(),
                (owned_or_empty(item.str_at("title")), owned_or_empty(item.str_at("domain"))),
            );
        }
        let key = match id {
            Some(rid) => rid.to_string(),
            None => owned_or_empty(item.str_at("url")),
        };
        proof {
            assert(key@ == source_key(all[i as int]));
        }
        let fresh = !key.as_str().is_empty() && !holds(&seen, key.as_str());
        proof {
            let now = all.take(i + 1);
            if fresh {
                assert forall|j: int| 0 <= j < i implies source_key(#[trigger] now[j])
                    != source_key(now[i as int]) by {
                    assert(now[j] == all[j]);
                }
            } else if key@.len() > 0 {
                let j = choose|j: int| 0 <= j < i && source_key(#[trigger] all[j]) == key@;
                assert(now[j] == all[j]);
            }
            assert(fresh == is_first_of_its_key(now, i as int));
        }
        if fresh {
            let ghost kept_before = kept@;
            let ghost seen_before = seen@;
            kept.push(keep_source(item));
            seen.push(key);
            proof {
                assert(kept@.drop_last() =~= kept_before);
                assert(texts(seen@) =~= texts(seen_before).push(key@));
                assert forall|k: Seq<char>| #[trigger] texts(seen@).contains(k) <==> k.len() > 0
                    && exists|j: int| 0 <= j < i + 1 && source_key(#[trigger] all[j]) == k by {
                    if texts(seen@).contains(k) {
                        let p = texts(seen@).index_of(k);
                        if p < seen_before.len() {
                            assert(texts(seen_before)[p] == k);
                            assert(texts(seen_before).contains(k));
                        } else {
                            assert(source_key(all[i as int]) == k);
                        }
                    }
                    if k.len() > 0 && exists|j: int|
                        0 <= j < i + 1 && source_key(#[trigger] all[j]) == k {
                        let j = choose|j: int| 0 <= j < i + 1 && source_key(#[trigger] all[j]) == k;
                        if j < i {
                            assert(texts(seen_before).contains(k));
                            let p = texts(seen_before).index_of(k);
                            assert(texts(seen@)[p] == k);
                        } else {
                            assert(texts(seen@)[seen_before.len() as int] == k);
                        }
                    }
                }
            }
        } else {
            proof {
                assert forall|k: Seq<char>| #[trigger] texts(seen@).contains(k) <==> k.len() > 0
                    && exists|j: int| 0 <= j < i + 1 && source_key(#[trigger] all[j]) == k by {
                    if k.len() > 0 && exists|j: int|
                        0 <= j < i + 1 && source_key(#[trigger] all[j]) == k {
                        let j = choose|j: int| 0 <= j < i + 1 && source_key(#[trigger] all[j]) == k;
                        if j == i {
                            assert(texts(seen@).contains(key@));
                        }
                    }
                }
            }
        }
        i = i + 1;
    }
    proof {
        lemma_items_view(items@);
        assert(all.take(i as int) =~= all);
    }
    (refs, kept)
}

/// Cleans the text of an answer and tells its sources apart by reference, else by address.
pub fn normalize_body(body: &Json) -> (r: Json)
    ensures
        r@ == normalized(body@),
{
    let none: Vec<Json> = Vec::new();
    let items = match body.array_at("results") {
        Some(a) => a,
        None => &none,
    };
    let (refs, kept) = collect_sources(items);
    let output = owned_or_empty(body.str_at("output"));
    let output = clean_output(output.as_str(), &refs);
    Json::object().with("output", Json::Str(output)).with("results", Json::Array(kept))
}

/// The text of an answer says that the service failed.
pub open spec fn tells_of_failure(norm: JsonV) -> bool {
    let text = or_empty(norm.str_at("output"@));
    occurs(text, "Internal Error"@) || occurs(text, "Unable to resolve"@) || occurs(
        text,
        "due to invalid arguments"@,
    )
}

/// Whether the text of an answer says that the service failed.
pub fn is_backend_error(norm: &Json) -> (r: bool)
    ensures
        r == tells_of_failure(norm@),
{
    let text = owned_or_empty(norm.str_at("output"));
    contains(text.as_str(), "Internal Error") || contains(text.as_str(), "Unable to resolve")
        || contains(text.as_str(), "due to invalid arguments")
}

// ---------------------------------------------------------------------------
// Laws
// ---------------------------------------------------------------------------
/// A source keeps the five members that it is made of.
pub proof fn lemma_source_members(item: JsonV)
    ensures
        source_of(item).str_at("url"@) == item.str_at("url"@),
        source_of(item).str_at("ref_id"@) == item.str_at("ref_id"@),
        source_of(item).str_at("title"@) == item.str_at("title"@),
        source_of(item).str_at("snippet"@) == item.str_at("snippet"@),
        source_of(item).str_at("domain"@) == item.str_at("domain"@),
        source_key(source_of(item)) == source_key(item),
        source_of(source_of(item)) == source_of(item),
{
    reveal_strlit("url");
    reveal_strlit("ref_id");
    reveal_strlit("title");
    reveal_strlit("snippet");
    reveal_strlit("domain");
    assert("url"@.len() == 3 && "ref_id"@.len() == 6 && "title"@.len() == 5 && "snippet"@.len()
        == 7 && "domain"@.len() == 6);
    assert("ref_id"@[0] != "domain"@[0]);
}

/// The sources are the first items of their keys: each source comes from such an item, and each
/// such item has its source.
pub proof fn lemma_sources_are_first(items: Seq<JsonV>)
    ensures
        forall|n: int| 0 <= n < sources(items).len() ==> exists|i: int|
            0 <= i < items.len() && is_first_of_its_key(items, i) && #[trigger] sources(items)[n]
                == source_of(#[trigger] items[i]),
        forall|i: int|
            0 <= i < items.len() && #[trigger] is_first_of_its_key(items, i) ==> sources(
                items,
            ).contains(source_of(items[i])),
    decreases items.len(),
{
    if items.len() > 0 {
        let before = items.drop_last();
        lemma_sources_are_first(before);
        let last = items.len() - 1;
        assert forall|i: int| 0 <= i < last implies is_first_of_its_key(before, i)
            == #[trigger] is_first_of_its_key(items, i) by {
            assert(before[i] == items[i]);
            assert(forall|j: int| 0 <= j < i ==> before[j] == items[j]);
        }
        assert forall|n: int| 0 <= n < sources(items).len() implies exists|i: int|
            0 <= i < items.len() && is_first_of_its_key(items, i) && #[trigger] sources(items)[n]
                == source_of(#[trigger] items[i]) by {
            if n < sources(before).len() {
                let i = choose|i: int|
                    0 <= i < before.len() && is_first_of_its_key(before, i) && sources(before)[n]
                        == source_of(#[trigger] before[i]);
                assert(items[i] == before[i]);
                assert(is_first_of_its_key(items, i));
            } else {
                assert(is_first_of_its_key(items, last));
                assert(sources(items)[n] == source_of(items[last]));
            }
        }
        assert forall|i: int|
            0 <= i < items.len() && #[trigger] is_first_of_its_key(items, i) implies sources(
            items,
        ).contains(source_of(items[i])) by {
            if i < last {
                assert(is_first_of_its_key(before, i));
                assert(sources(before).contains(source_of(before[i])));
                let n = sources(before).index_of(source_of(before[i]));
                assert(sources(items)[n] == source_of(items[i]));
            } else {
                assert(sources(items).last() == source_of(items[i]));
            }
        }
    }
}

/// No two sources have the same key, and every source has one.
pub proof fn lemma_sources_distinct(items: Seq<JsonV>)
    ensures
        forall|n: int|
            0 <= n < sources(items).len() ==> source_key(#[trigger] sources(items)[n]).len() > 0,
        forall|m: int, n: int|
            0 <= m < n < sources(items).len() ==> source_key(#[trigger] sources(items)[m])
                != source_key(#[trigger] sources(items)[n]),
    decreases items.len(),
{
    if items.len() > 0 {
        let before = items.drop_last();
        let last = items.len() - 1;
        lemma_sources_distinct(before);
        lemma_sources_are_first(before);
        lemma_source_members(items.last());
        assert forall|m: int, n: int| 0 <= m < n < sources(items).len() implies source_key(
            #[trigger] sources(items)[m],
        ) != source_key(#[trigger] sources(items)[n]) by {
            if n < sources(before).len() {
                assert(sources(before)[m] == sources(items)[m]);
                assert(sources(before)[n] == sources(items)[n]);
            } else {
                assert(sources(items)[m] == sources(before)[m]);
                let i = choose|i: int|
                    0 <= i < before.len() && is_first_of_its_key(before, i) && sources(before)[m]
                        == source_of(#[trigger] before[i]);
                lemma_source_members(before[i]);
                assert(items[i] == before[i]);
            }
        }
        assert forall|n: int| 0 <= n < sources(items).len() implies source_key(
            #[trigger] sources(items)[n],
        ).len() > 0 by {
            if n < sources(before).len() {
                assert(sources(before)[n] == sources(items)[n]);
            }
        }
    }
}

/// Every item that has a key has a source with that key.
pub proof fn lemma_sources_complete(items: Seq<JsonV>, i: int)
    requires
        0 <= i < items.len(),
        source_key(items[i]).len() > 0,
    ensures
        exists|n: int|
            0 <= n < sources(items).len() && source_key(#[trigger] sources(items)[n])
                == source_key(items[i]),
    decreases i,
{
    if is_first_of_its_key(items, i) {
        lemma_sources_are_first(items);
        lemma_source_members(items[i]);
        let n = sources(items).index_of(source_of(items[i]));
        assert(source_key(sources(items)[n]) == source_key(items[i]));
    } else {
        let j = choose|j: int|
            0 <= j < i && source_key(#[trigger] items[j]) == source_key(items[i]);
        lemma_sources_complete(items, j);
    }
}

/// Sources that are told apart stay as they are: taking the sources twice is taking them once.
pub proof fn lemma_sources_twice(items: Seq<JsonV>)
    ensures
        sources(sources(items)) == sources(items),
{
    lemma_sources_distinct(items);
    lemma_sources_are_first(items);
    let kept = sources(items);
    assert forall|n: int| 0 <= n < kept.len() implies source_of(#[trigger] kept[n]) == kept[n] by {
        let i = choose|i: int|
            0 <= i < items.len() && is_first_of_its_key(items, i) && kept[n] == source_of(
                #[trigger] items[i],
            );
        lemma_source_members(items[i]);
    }
    lemma_distinct_kept(kept);
}

proof fn lemma_distinct_kept(kept: Seq<JsonV>)
    requires
        forall|n: int| 0 <= n < kept.len() ==> source_of(#[trigger] kept[n]) == kept[n],
        forall|n: int| 0 <= n < kept.len() ==> source_key(#[trigger] kept[n]).len() > 0,
        forall|m: int, n: int|
            0 <= m < n < kept.len() ==> source_key(#[trigger] kept[m]) != source_key(
                #[trigger] kept[n],
            ),
    ensures
        sources(kept) == kept,
    decreases kept.len(),
{
    if kept.len() > 0 {
        let before = kept.drop_last();
        assert(forall|n: int| 0 <= n < before.len() ==> before[n] == kept[n]);
        lemma_distinct_kept(before);
        assert(is_first_of_its_key(kept, kept.len() - 1));
        assert(before.push(kept.last()) =~= kept);
    } else {
        assert(sources(kept) =~= kept);
    }
}

/// The sources of a normalized answer are those of the answer, and normalizing keeps them.
pub proof fn lemma_normalized_sources(body: JsonV)
    ensures
        items_of(normalized(body)) == sources(items_of(body)),
        items_of(normalized(normalized(body))) == items_of(normalized(body)),
{
    reveal_strlit("output");
    reveal_strlit("results");
    assert("output"@.len() == 6 && "results"@.len() == 7);
    lemma_sources_twice(items_of(body));
}

/// A source is told apart by its reference, where it has one, even an empty one; else by its
/// address; one that has neither cannot be told apart.
pub proof fn lemma_key_of_source(item: JsonV)
    ensures
        item.str_at("ref_id"@) matches Some(id) ==> source_key(item) == id,
        item.str_at("ref_id"@) is None ==> (item.str_at("url"@) matches Some(url) ==> source_key(
            item,
        ) == url),
        item.str_at("ref_id"@) is None && item.str_at("url"@) is None ==> source_key(item).len()
            == 0,
{
}

/// A source has five members, each the text that the item gives or else null, and no other.
pub proof fn lemma_kept_of_source(item: JsonV, key: Seq<char>)
    ensures
        ({
            let kept = key == "url"@ || key == "ref_id"@ || key == "title"@ || key == "snippet"@
                || key == "domain"@;
            &&& kept && item.str_at(key) is Some ==> source_of(item).get(key) == Some(
                JsonV::Str(item.str_at(key)->0),
            )
            &&& kept && item.str_at(key) is None ==> source_of(item).get(key) == Some(JsonV::Null)
            &&& !kept ==> source_of(item).get(key) is None
        }),
{
    reveal_strlit("url");
    reveal_strlit("ref_id");
    reveal_strlit("title");
    reveal_strlit("snippet");
    reveal_strlit("domain");
    assert("url"@.len() == 3 && "ref_id"@.len() == 6 && "title"@.len() == 5 && "snippet"@.len()
        == 7 && "domain"@.len() == 6);
    assert("ref_id"@[0] != "domain"@[0]);
}

/// One more item adds its source where it can be told apart and none before it has its key, and
/// else changes nothing; the sources before it stay.
pub proof fn lemma_one_more_source(items: Seq<JsonV>, item: JsonV)
    ensures
        ({
            let seen = exists|j: int|
                0 <= j < items.len() && source_key(#[trigger] items[j]) == source_key(item);
            &&& source_key(item).len() > 0 && !seen ==> sources(items.push(item)) == sources(
                items,
            ).push(source_of(item))
            &&& source_key(item).len() == 0 || seen ==> sources(items.push(item)) == sources(items)
        }),
        sources(Seq::empty()) == Seq::<JsonV>::empty(),
{
    let more = items.push(item);
    assert(more.drop_last() =~= items);
    assert(forall|j: int| 0 <= j < items.len() ==> more[j] == items[j]);
    if exists|j: int| 0 <= j < items.len() && source_key(#[trigger] items[j]) == source_key(item) {
        let j = choose|j: int|
            0 <= j < items.len() && source_key(#[trigger] items[j]) == source_key(item);
        assert(source_key(more[j]) == source_key(more[items.len() as int]));
        assert(!is_first_of_its_key(more, items.len() as int));
    } else if source_key(item).len() > 0 {
        assert(is_first_of_its_key(more, items.len() as int));
    }
}

/// One more item with a reference sets its title and its domain, whether or not its source is
/// kept; the other references stay.
pub proof fn lemma_one_more_reference(items: Seq<JsonV>, item: JsonV, other: Seq<char>)
    ensures
        item.str_at("ref_id"@) matches Some(id) ==> {
            &&& references(items.push(item)).dom().contains(id)
            &&& item.str_at("title"@) matches Some(t) ==> references(items.push(item))[id].0 == t
            &&& item.str_at("title"@) is None ==> references(items.push(item))[id].0.len() == 0
            &&& item.str_at("domain"@) matches Some(d) ==> references(items.push(item))[id].1 == d
            &&& item.str_at("domain"@) is None ==> references(items.push(item))[id].1.len() == 0
            &&& other != id ==> {
                &&& references(items.push(item)).dom().contains(other) == references(
                    items,
                ).dom().contains(other)
                &&& references(items.push(item))[other] == references(items)[other]
            }
        },
        item.str_at("ref_id"@) is None ==> references(items.push(item)) == references(items),
        references(Seq::empty()) == Map::<Seq<char>, (Seq<char>, Seq<char>)>::empty(),
{
    assert(items.push(item).drop_last() =~= items);
}

/// A normalized answer has the cleaned text, or an empty one, and the sources; no more.
pub proof fn lemma_normalized(body: JsonV, key: Seq<char>)
    ensures
        normalized(body).get("results"@) == Some(
            JsonV::Array(
                match body.array_at("results"@) {
                    Some(items) => sources(items),
                    None => Seq::empty(),
                },
            ),
        ),
        ({
            let refs = match body.array_at("results"@) {
                Some(items) => references(items),
                None => Map::empty(),
            };
            let text = match body.str_at("output"@) {
                Some(text) => cleaned(text, refs),
                None => cleaned(Seq::empty(), refs),
            };
            normalized(body).get("output"@) == Some(JsonV::Str(text))
        }),
        key != "output"@ && key != "results"@ ==> normalized(body).get(key) is None,
{
    reveal_strlit("output");
    reveal_strlit("results");
    assert("output"@.len() == 6 && "results"@.len() == 7);
}

/// An answer tells of a failure where one of three phrases stands in its text, anywhere, and only
/// there.
pub proof fn lemma_failure_told(norm: JsonV, before: Seq<char>, after: Seq<char>)
    ensures
        norm.str_at("output"@) == Some(before + "Internal Error"@ + after) ==> tells_of_failure(
            norm,
        ),
        norm.str_at("output"@) == Some(before + "Unable to resolve"@ + after) ==> tells_of_failure(
            norm,
        ),
        norm.str_at("output"@) == Some(before + "due to invalid arguments"@ + after)
            ==> tells_of_failure(norm),
        norm.str_at("output"@) is None ==> !tells_of_failure(norm),
        norm.str_at("output"@) matches Some(text) ==> tells_of_failure(norm) ==> {
            ||| occurs(text, "Internal Error"@)
            ||| occurs(text, "Unable to resolve"@)
            ||| occurs(text, "due to invalid arguments"@)
        },
{
    lemma_stands(before, "Internal Error"@, after);
    lemma_stands(before, "Unable to resolve"@, after);
    lemma_stands(before, "due to invalid arguments"@, after);
    if norm.str_at("output"@) is None {
        reveal_strlit("Internal Error");
        reveal_strlit("Unable to resolve");
        reveal_strlit("due to invalid arguments");
        assert("Internal Error"@.len() == 14 && "Unable to resolve"@.len() == 17
            && "due to invalid arguments"@.len() == 24);
    }
}

proof fn lemma_stands(before: Seq<char>, phrase: Seq<char>, after: Seq<char>)
    ensures
        occurs(before + phrase + after, phrase),
{
    let s = before + phrase + after;
    let i = before.len() as int;
    assert(s.subrange(i, i + phrase.len()) =~= phrase);
    assert(occurs_at(s, phrase, i));
}

} // verus!
