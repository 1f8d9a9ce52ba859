//! The commands that a search or a research asks of the search service.

use vstd::prelude::*;

use crate::json::empty_object;
use crate::json::items_view;
use crate::json::json_view;
use crate::json::lemma_items_view;
use crate::json::Json;
use crate::json::JsonV;
use crate::text::is_blank;
use crate::text::lemma_blank_trimmed;
use crate::text::lemma_trimmed_twice;
use crate::text::trim;
use crate::text::trimmed;

verus! {

/// An operation of a research.
#[derive(Clone, Copy)]
pub enum Operation {
    Search,
    Open,
    Find,
    Click,
}

/// The member under which the commands of an operation stand.
pub open spec fn operation_key(op: Operation) -> Seq<char> {
    match op {
        Operation::Search => "search_query"@,
        Operation::Open => "open"@,
        Operation::Find => "find"@,
        Operation::Click => "click"@,
    }
}

fn key_of(op: Operation) -> (r: &'static str)
    ensures
        r@ == operation_key(op),
{
    match op {
        Operation::Search => "search_query",
        Operation::Open => "open",
        Operation::Find => "find",
        Operation::Click => "click",
    }
}

/// The texts among some values, without the white space around them; empty ones are left out.
pub open spec fn listed_texts(items: Seq<JsonV>) -> Seq<JsonV>
    decreases items.len(),
{
    if items.len() == 0 {
        Seq::empty()
    } else {
        let before = listed_texts(items.drop_last());
        match items.last().as_str() {
            Some(s) => if trimmed(s).len() > 0 {
                before.push(JsonV::Str(trimmed(s)))
            } else {
                before
            },
            None => before,
        }
    }
}

/// The domains that a query is limited to.
pub open spec fn given_domains(args: JsonV) -> Seq<JsonV> {
    match args.array_at("domains"@) {
        Some(items) => listed_texts(items),
        None => Seq::empty(),
    }
}

/// `object` with a list under `key`, where there is anything in the list.
pub open spec fn with_list(object: JsonV, key: Seq<char>, list: Seq<JsonV>) -> JsonV {
    if list.len() > 0 {
        object.with(key, JsonV::Array(list))
    } else {
        object
    }
}

/// A query: what is asked, the number of days where it is positive, the domains where there are
/// any.
pub open spec fn query(q: Seq<char>, args: JsonV) -> JsonV {
    let asked = empty_object().with("q"@, JsonV::Str(q));
    let dated = match args.i64_at("recency"@) {
        Some(n) => if n > 0 {
            asked.with("recency"@, JsonV::Int(n))
        } else {
            asked
        },
        None => asked,
    };
    with_list(dated, "domains"@, given_domains(args))
}

/// The command that an item of an operation asks for; an item that lacks what the operation
/// needs asks for none.
pub open spec fn command(op: Operation, item: JsonV) -> Option<JsonV> {
    let id = item.trimmed_at("ref_id"@);
    let target = empty_object().with("ref_id"@, JsonV::Str(id));
    match op {
        Operation::Search => {
            let q = item.trimmed_at("q"@);
            if q.len() > 0 {
                Some(query(q, item))
            } else {
                None
            }
        },
        Operation::Open => if id.len() == 0 {
            None
        } else {
            match item.i64_at("lineno"@) {
                Some(n) => Some(target.with("lineno"@, JsonV::Int(n))),
                None => Some(target),
            }
        },
        Operation::Find => {
            let pattern = item.trimmed_at("pattern"@);
            if id.len() > 0 && pattern.len() > 0 {
                Some(target.with("pattern"@, JsonV::Str(pattern)))
            } else {
                None
            }
        },
        Operation::Click => match item.i64_at("id"@) {
            Some(n) => if id.len() > 0 {
                Some(target.with("id"@, JsonV::Int(n)))
            } else {
                None
            },
            None => None,
        },
    }
}

/// The commands that the items of an operation ask for, in order.
pub open spec fn commands(op: Operation, items: Seq<JsonV>) -> Seq<JsonV>
    decreases items.len(),
{
    if items.len() == 0 {
        Seq::empty()
    } else {
        let before = commands(op, items.drop_last());
        match command(op, items.last()) {
            Some(c) => before.push(c),
            None => before,
        }
    }
}

/// The commands of an operation that the arguments ask for.
pub open spec fn asked(op: Operation, args: JsonV) -> Seq<JsonV> {
    match args.array_at(operation_key(op)) {
        Some(items) => commands(op, items),
        None => Seq::empty(),
    }
}

/// `object` with the length of the response, where the arguments give it; else the service takes
/// its own.
pub open spec fn with_length(object: JsonV, args: JsonV) -> JsonV {
    match args.str_at("response_length"@) {
        Some(s) => object.with("response_length"@, JsonV::Str(s)),
        None => object,
    }
}

/// `object` with the length of the response: the one that the arguments give, else `long`. Where
/// no operation is held there is no response to give a length to.
pub open spec fn with_research_length(object: JsonV, args: JsonV) -> JsonV {
    if args.str_at("response_length"@) is None && has_operation(object) {
        object.with("response_length"@, JsonV::Str("long"@))
    } else {
        with_length(object, args)
    }
}

/// The commands of a search: one query. Without a length none is sent, and the service answers at
/// its own, which the description of the tool gives as `medium`.
pub open spec fn search_commands(args: JsonV) -> JsonV {
    let one = query(args.trimmed_at("query"@), args);
    with_length(empty_object().with("search_query"@, JsonV::Array(seq![one])), args)
}

/// `object` with the commands of an operation, where the arguments ask for any.
pub open spec fn with_operation(object: JsonV, op: Operation, args: JsonV) -> JsonV {
    with_list(object, operation_key(op), asked(op, args))
}

/// The commands of a research: the operations that are asked for, at the length that is asked for
/// or else `long`.
pub open spec fn research_commands(args: JsonV) -> JsonV {
    let searched = with_operation(empty_object(), Operation::Search, args);
    let opened = with_operation(searched, Operation::Open, args);
    let found = with_operation(opened, Operation::Find, args);
    let clicked = with_operation(found, Operation::Click, args);
    with_research_length(clicked, args)
}

/// Some commands hold an operation.
pub open spec fn has_operation(commands: JsonV) -> bool {
    commands.get("search_query"@) is Some || commands.get("open"@) is Some || commands.get(
        "find"@,
    ) is Some || commands.get("click"@) is Some
}

fn list_texts(items: &Vec<Json>) -> (r: Vec<Json>)
    ensures
        items_view(r@) == listed_texts(items_view(items@)),
{
    let ghost all = items_view(items@);
    let mut out: Vec<Json> = Vec::new();
    let mut i: usize = 0;
    while i < items.len()
        invariant
            i <= items.len(),
            all == items_view(items@),
            items_view(out@) == listed_texts(all.take(i as int)),
        decreases items.len() - i,
    {
        proof {
            lemma_items_view(items@);
            assert(all.take(i + 1).drop_last() =~= all.take(i as int));
            assert(all.take(i + 1).last() == all[i as int]);
        }
        if let Some(s) = items[i].as_str() {
            let t = trim(s);
            if !t.as_str().is_empty() {
                let ghost before = out@;
                out.push(Json::Str(t));
                proof {
                    assert(json_view(out@.last()) == JsonV::Str(trimmed(s@)));
                    assert(out@.drop_last() =~= before);
                }
            }
        }
        i = i + 1;
    }
    proof {
        lemma_items_view(items@);
        assert(all.take(i as int) =~= all);
    }
    out
}

fn add_list(object: Json, key: &str, list: Vec<Json>) -> (r: Json)
    ensures
        r@ == with_list(object@, key@, items_view(list@)),
{
    proof {
        lemma_items_view(list@);
    }
    if list.len() > 0 {
        object.with(key, Json::Array(list))
    } else {
        object
    }
}

fn make_query(q: &str, args: &Json) -> (r: Json)
    ensures
        r@ == query(q@, args@),
{
    let mut out = Json::object().with("q", Json::text(q));
    if let Some(n) = args.i64_at("recency") {
        if n > 0 {
            out = out.with("recency", Json::Int(n));
        }
    }
    let domains = match args.array_at("domains") {
        Some(items) => list_texts(items),
        None => Vec::new(),
    };
    add_list(out, "domains", domains)
}

fn make_command(op: Operation, item: &Json) -> (r: Option<Json>)
    ensures
        match r {
            Some(c) => command(op, item@) == Some(c@),
            None => command(op, item@) is None,
        },
{
    let id = item.trimmed_at("ref_id");
    match op {
        Operation::Search => {
            let q = item.trimmed_at("q");
            if q.as_str().is_empty() {
                None
            } else {
                Some(make_query(q.as_str(), item))
            }
        },
        Operation::Open => {
            if id.as_str().is_empty() {
                return None;
            }
            let target = Json::object().with("ref_id", Json::Str(id));
            match item.i64_at("lineno") {
                Some(n) => Some(target.with("lineno", Json::Int(n))),
                None => Some(target),
            }
        },
        Operation::Find => {
            let pattern = item.trimmed_at("pattern");
            if id.as_str().is_empty() || pattern.as_str().is_empty() {
                return None;
            }
            let target = Json::object().with("ref_id", Json::Str(id));
            Some(target.with("pattern", Json::Str(pattern)))
        },
        Operation::Click => {
            if id.as_str().is_empty() {
                return None;
            }
            let target = Json::object().with("ref_id", Json::Str(id));
            match item.i64_at("id") {
                Some(n) => Some(target.with("id", Json::Int(n))),
                None => None,
            }
        },
    }
}

fn make_commands(op: Operation, items: &Vec<Json>) -> (r: Vec<Json>)
    ensures
        items_view(r@) == commands(op, items_view(items@)),
{
    let ghost all = items_view(items@);
    let mut out: Vec<Json> = Vec::new();
    let mut i: usize = 0;
    while i < items.len()
        invariant
            i <= items.len(),
            all == items_view(items@),
            items_view(out@) == commands(op, all.take(i as int)),
        decreases items.len() - i,
    {
        proof {
            lemma_items_view(items@);
            assert(all.take(i + 1).drop_last() =~= all.take(i as int));
            assert(all.take(i + 1).last() == all[i as int]);
        }
        if let Some(c) = make_command(op, &items[i]) {
            let ghost before = out@;
            out.push(c);
            proof {
                assert(out@.drop_last() =~= before);
            }
        }
        i = i + 1;
    }
    proof {
        lemma_items_view(items@);
        assert(all.take(i as int) =~= all);
    }
    out
}

fn add_operation(object: Json, op: Operation, args: &Json) -> (r: Json)
    ensures
        r@ == with_operation(object@, op, args@),
{
    let list = match args.array_at(key_of(op)) {
        Some(items) => make_commands(op, items),
        None => Vec::new(),
    };
    add_list(object, key_of(op), list)
}

fn add_length(object: Json, args: &Json) -> (r: Json)
    ensures
        r@ == with_length(object@, args@),
{
    match args.str_at("response_length") {
        Some(s) => object.with("response_length", Json::text(s)),
        None => object,
    }
}

fn add_research_length(object: Json, args: &Json) -> (r: Json)
    ensures
        r@ == with_research_length(object@, args@),
{
    if args.str_at("response_length").is_none() && asks_for_something(&object) {
        object.with("response_length", Json::text("long"))
    } else {
        add_length(object, args)
    }
}

/// Builds the commands of a search.
pub fn build_search_commands(args: &Json) -> (r: Json)
    ensures
        r@ == search_commands(args@),
{
    let mut list: Vec<Json> = Vec::new();
    list.push(make_query(args.trimmed_at("query").as_str(), args));
    proof {
        lemma_items_view(list@);
        assert(items_view(list@) =~= seq![query(args@.trimmed_at("query"@), args@)]);
    }
    add_length(Json::object().with("search_query", Json::Array(list)), args)
}

/// Builds the commands of a research.
pub fn build_research_commands(args: &Json) -> (r: Json)
    ensures
        r@ == research_commands(args@),
{
    let out = add_operation(Json::object(), Operation::Search, args);
    let out = add_operation(out, Operation::Open, args);
    let out = add_operation(out, Operation::Find, args);
    let out = add_operation(out, Operation::Click, args);
    add_research_length(out, args)
}

/// Whether some commands hold an operation.
pub fn asks_for_something(commands: &Json) -> (r: bool)
    ensures
        r == has_operation(commands@),
{
    commands.get("search_query").is_some() || commands.get("open").is_some() || commands.get(
        "find",
    ).is_some() || commands.get("click").is_some()
}

// ---------------------------------------------------------------------------
// Laws
// ---------------------------------------------------------------------------
proof fn lemma_keys()
    ensures
        "search_query"@ != "open"@,
        "search_query"@ != "find"@,
        "search_query"@ != "click"@,
        "search_query"@ != "response_length"@,
        "open"@ != "find"@,
        "open"@ != "click"@,
        "open"@ != "response_length"@,
        "find"@ != "click"@,
        "find"@ != "response_length"@,
        "click"@ != "response_length"@,
{
    reveal_strlit("search_query");
    reveal_strlit("open");
    reveal_strlit("find");
    reveal_strlit("click");
    reveal_strlit("response_length");
    assert("search_query"@.len() == 12 && "open"@.len() == 4 && "find"@.len() == 4
        && "click"@.len() == 5 && "response_length"@.len() == 15);
    assert("open"@[0] != "find"@[0]);
}

/// A research holds an operation under its key exactly where the arguments ask for a command of
/// it, and then all the commands asked for: no empty list is ever sent.
pub proof fn lemma_research_operation(op: Operation, args: JsonV)
    ensures
        research_commands(args).get(operation_key(op)) == (if asked(op, args).len() > 0 {
            Some(JsonV::Array(asked(op, args)))
        } else {
            None
        }),
{
    lemma_keys();
}

/// A research has an operation where a command is asked for, and only there.
pub proof fn lemma_research_has_operation(args: JsonV)
    ensures
        has_operation(research_commands(args)) == (asked(Operation::Search, args).len() > 0
            || asked(Operation::Open, args).len() > 0 || asked(Operation::Find, args).len() > 0
            || asked(Operation::Click, args).len() > 0),
{
    lemma_research_operation(Operation::Search, args);
    lemma_research_operation(Operation::Open, args);
    lemma_research_operation(Operation::Find, args);
    lemma_research_operation(Operation::Click, args);
}

/// A research with an operation always says how long the response shall be: as long as asked for,
/// else `long`.
pub proof fn lemma_research_length(args: JsonV)
    ensures
        args.str_at("response_length"@) is Some ==> research_commands(args).str_at(
            "response_length"@,
        ) == args.str_at("response_length"@),
        args.str_at("response_length"@) is None && has_operation(research_commands(args))
            ==> research_commands(args).str_at("response_length"@) == Some("long"@),
        !has_operation(research_commands(args)) ==> research_commands(args).str_at(
            "response_length"@,
        ) == args.str_at("response_length"@),
{
    lemma_keys();
}

/// Every command sent comes from an item that asks for it.
pub proof fn lemma_commands_from_items(op: Operation, items: Seq<JsonV>)
    ensures
        commands(op, items).len() <= items.len(),
        forall|n: int|
            0 <= n < commands(op, items).len() ==> exists|i: int|
                0 <= i < items.len() && command(op, #[trigger] items[i]) == Some(
                    #[trigger] commands(op, items)[n],
                ),
    decreases items.len(),
{
    if items.len() > 0 {
        let before = items.drop_last();
        lemma_commands_from_items(op, before);
        let last = items.len() - 1;
        assert forall|n: int| 0 <= n < commands(op, items).len() implies exists|i: int|
            0 <= i < items.len() && command(op, #[trigger] items[i]) == Some(
                #[trigger] commands(op, items)[n],
            ) by {
            if n < commands(op, before).len() {
                let i = choose|i: int|
                    0 <= i < before.len() && command(op, #[trigger] before[i]) == Some(
                        commands(op, before)[n],
                    );
                assert(items[i] == before[i]);
            } else {
                assert(command(op, items[last]) == Some(commands(op, items)[n]));
            }
        }
    }
}

/// A search sends one query, and the length of the response beside it, where it is given.
pub proof fn lemma_search_commands(args: JsonV)
    ensures
        search_commands(args).array_at("search_query"@) == Some(
            seq![query(args.trimmed_at("query"@), args)],
        ),
        search_commands(args).str_at("response_length"@) == args.str_at("response_length"@),
{
    lemma_keys();
}

/// A query says what is asked; its number of days is positive, its domains are not an empty list,
/// and the length of the response never stands in it.
pub proof fn lemma_query(q: Seq<char>, args: JsonV)
    ensures
        query(q, args).str_at("q"@) == Some(q),
        query(q, args).get("recency"@) matches Some(v) ==> v.as_i64() is Some && v.as_i64()->0 > 0
            && args.i64_at("recency"@) == v.as_i64(),
        query(q, args).get("domains"@) matches Some(v) ==> v == JsonV::Array(given_domains(args))
            && given_domains(args).len() > 0,
        query(q, args).get("response_length"@) is None,
{
    reveal_strlit("q");
    reveal_strlit("recency");
    reveal_strlit("domains");
    reveal_strlit("response_length");
    assert("q"@.len() == 1 && "recency"@.len() == 7 && "domains"@.len() == 7
        && "response_length"@.len() == 15);
    assert("recency"@[0] != "domains"@[0]);
}

/// The domains that are sent are texts, none of them empty or with white space around it.
pub proof fn lemma_listed_texts(items: Seq<JsonV>)
    ensures
        forall|n: int|
            0 <= n < listed_texts(items).len() ==> (#[trigger] listed_texts(items)[n]).as_str()
                is Some && listed_texts(items)[n].as_str()->0.len() > 0 && trimmed(
                listed_texts(items)[n].as_str()->0,
            ) == listed_texts(items)[n].as_str()->0,
    decreases items.len(),
{
    if items.len() > 0 {
        lemma_listed_texts(items.drop_last());
        if let Some(s) = items.last().as_str() {
            lemma_trimmed_twice(s);
        }
        let before = listed_texts(items.drop_last());
        assert forall|n: int| 0 <= n < listed_texts(items).len() implies (#[trigger] listed_texts(
            items,
        )[n]).as_str() is Some && listed_texts(items)[n].as_str()->0.len() > 0 && trimmed(
            listed_texts(items)[n].as_str()->0,
        ) == listed_texts(items)[n].as_str()->0 by {
            if n < before.len() {
                assert(listed_texts(items)[n] == before[n]);
            }
        }
    }
}

proof fn lemma_member_keys()
    ensures
        "q"@ != "recency"@,
        "q"@ != "domains"@,
        "recency"@ != "domains"@,
        "ref_id"@ != "lineno"@,
        "ref_id"@ != "pattern"@,
        "ref_id"@ != "id"@,
{
    reveal_strlit("q");
    reveal_strlit("recency");
    reveal_strlit("domains");
    reveal_strlit("ref_id");
    reveal_strlit("lineno");
    reveal_strlit("pattern");
    reveal_strlit("id");
    assert("q"@.len() == 1 && "recency"@.len() == 7 && "domains"@.len() == 7 && "ref_id"@.len() == 6
        && "lineno"@.len() == 6 && "pattern"@.len() == 7 && "id"@.len() == 2);
    assert("recency"@[0] != "domains"@[0]);
    assert("ref_id"@[0] != "lineno"@[0]);
}

proof fn lemma_texts_kept(list: Seq<JsonV>)
    requires
        forall|n: int|
            0 <= n < list.len() ==> (#[trigger] list[n]).as_str() is Some
                && list[n].as_str()->0.len() > 0 && trimmed(list[n].as_str()->0)
                == list[n].as_str()->0,
    ensures
        listed_texts(list) == list,
    decreases list.len(),
{
    if list.len() > 0 {
        let before = list.drop_last();
        assert(forall|n: int| 0 <= n < before.len() ==> before[n] == list[n]);
        lemma_texts_kept(before);
        assert(list[list.len() - 1].as_str() is Some);
        assert(before.push(list.last()) =~= list);
    } else {
        assert(listed_texts(list) =~= list);
    }
}

proof fn lemma_query_kept(q: Seq<char>, args: JsonV)
    ensures
        query(q, query(q, args)) == query(q, args),
{
    lemma_member_keys();
    let once = query(q, args);
    let domains = given_domains(args);
    if let Some(items) = args.array_at("domains"@) {
        lemma_listed_texts(items);
        lemma_texts_kept(domains);
    }
    assert(given_domains(once) =~= domains);
}

/// What is sent asks for itself: a command, taken as an item, gives the same command.
pub proof fn lemma_command_kept(op: Operation, item: JsonV)
    ensures
        command(op, item) matches Some(c) ==> command(op, c) == Some(c),
{
    lemma_member_keys();
    lemma_trimmed_at(item, "ref_id"@);
    lemma_trimmed_at(item, "pattern"@);
    lemma_trimmed_at(item, "q"@);
    lemma_query_kept(item.trimmed_at("q"@), item);
}

proof fn lemma_trimmed_at(item: JsonV, key: Seq<char>)
    ensures
        trimmed(item.trimmed_at(key)) == item.trimmed_at(key),
{
    if let Some(s) = item.str_at(key) {
        lemma_trimmed_twice(s);
    }
}

proof fn lemma_commands_kept(op: Operation, items: Seq<JsonV>)
    ensures
        commands(op, commands(op, items)) == commands(op, items),
    decreases items.len(),
{
    if items.len() > 0 {
        let before = items.drop_last();
        lemma_commands_kept(op, before);
        lemma_command_kept(op, items.last());
        if let Some(c) = command(op, items.last()) {
            let list = commands(op, before).push(c);
            assert(list.drop_last() =~= commands(op, before));
        }
    }
}

/// Building the commands of a research from built commands changes nothing.
pub proof fn lemma_research_twice(args: JsonV)
    ensures
        research_commands(research_commands(args)) == research_commands(args),
{
    lemma_asked_kept(Operation::Search, args);
    lemma_asked_kept(Operation::Open, args);
    lemma_asked_kept(Operation::Find, args);
    lemma_asked_kept(Operation::Click, args);
    lemma_research_length(args);
    lemma_keys();
}

proof fn lemma_asked_kept(op: Operation, args: JsonV)
    ensures
        asked(op, research_commands(args)) == asked(op, args),
{
    lemma_research_operation(op, args);
    if let Some(items) = args.array_at(operation_key(op)) {
        lemma_commands_kept(op, items);
    }
}

/// A search is a research with one query: its commands are those of the research that asks for
/// them, but for the length of the response where none is asked for.
pub proof fn lemma_search_is_research(args: JsonV)
    requires
        args.trimmed_at("query"@).len() > 0,
    ensures
        research_commands(search_commands(args)) == (if args.str_at("response_length"@) is Some {
            search_commands(args)
        } else {
            search_commands(args).with("response_length"@, JsonV::Str("long"@))
        }),
{
    let q = args.trimmed_at("query"@);
    let one = query(q, args);
    lemma_keys();
    lemma_member_keys();
    lemma_trimmed_at(args, "query"@);
    lemma_query_kept(q, args);
    assert(command(Operation::Search, one) == Some(one));
    let list = seq![one];
    assert(list.drop_last() =~= Seq::<JsonV>::empty());
    reveal_with_fuel(commands, 2);
    assert(commands(Operation::Search, list) =~= list);
    lemma_search_commands(args);
}

/// The members of a query: what is asked; the number of days, where it is given and positive; the
/// domains, where any are given; no more.
pub proof fn lemma_query_members(q: Seq<char>, args: JsonV, key: Seq<char>)
    ensures
        query(q, args).get("q"@) == Some(JsonV::Str(q)),
        args.i64_at("recency"@) matches Some(n) ==> n > 0 ==> query(q, args).get("recency"@)
            == Some(JsonV::Int(n)),
        args.i64_at("recency"@) is None || args.i64_at("recency"@)->0 <= 0 ==> query(q, args).get(
            "recency"@,
        ) is None,
        args.array_at("domains"@) matches Some(items) ==> query(q, args).get("domains"@) == (
        if listed_texts(items).len() > 0 {
            Some(JsonV::Array(listed_texts(items)))
        } else {
            None
        }),
        args.array_at("domains"@) is None ==> query(q, args).get("domains"@) is None,
        key != "q"@ && key != "recency"@ && key != "domains"@ ==> query(q, args).get(key) is None,
{
    lemma_member_keys();
}

/// Of a list the texts are kept in order, without the white space around them; what is blank or no
/// text is left out.
pub proof fn lemma_one_more_text(items: Seq<JsonV>, item: JsonV)
    ensures
        listed_texts(Seq::empty()) == Seq::<JsonV>::empty(),
        item.as_str() matches Some(s) ==> (if is_blank(s) {
            listed_texts(items.push(item)) == listed_texts(items)
        } else {
            listed_texts(items.push(item)) == listed_texts(items).push(JsonV::Str(trimmed(s)))
        }),
        item.as_str() is None ==> listed_texts(items.push(item)) == listed_texts(items),
{
    assert(items.push(item).drop_last() =~= items);
    if let Some(s) = item.as_str() {
        lemma_blank_trimmed(s);
    }
}

/// The text under a key, without the white space around it, or nothing.
proof fn lemma_given(item: JsonV, key: Seq<char>)
    ensures
        (item.trimmed_at(key).len() > 0) == (item.str_at(key) is Some && !is_blank(
            item.str_at(key)->0,
        )),
        item.str_at(key) matches Some(s) ==> item.trimmed_at(key) == trimmed(s),
{
    if let Some(s) = item.str_at(key) {
        lemma_blank_trimmed(s);
    }
}

/// A search of a research needs something to ask, and is then a query.
pub proof fn lemma_search_item(item: JsonV)
    ensures
        item.str_at("q"@) matches Some(s) ==> !is_blank(s) ==> command(Operation::Search, item)
            == Some(query(trimmed(s), item)),
        item.str_at("q"@) is None || is_blank(item.str_at("q"@)->0) ==> command(
            Operation::Search,
            item,
        ) is None,
{
    lemma_given(item, "q"@);
}

/// Opening needs a reference; a line number goes with it where one is given.
pub proof fn lemma_open_item(item: JsonV, key: Seq<char>)
    ensures
        item.str_at("ref_id"@) is None || is_blank(item.str_at("ref_id"@)->0) ==> command(
            Operation::Open,
            item,
        ) is None,
        item.str_at("ref_id"@) matches Some(id) ==> !is_blank(id) ==> {
            &&& command(Operation::Open, item) matches Some(c)
            &&& c.get("ref_id"@) == Some(JsonV::Str(trimmed(id)))
            &&& item.i64_at("lineno"@) matches Some(n) ==> c.get("lineno"@) == Some(JsonV::Int(n))
            &&& item.i64_at("lineno"@) is None ==> c.get("lineno"@) is None
            &&& key != "ref_id"@ && key != "lineno"@ ==> c.get(key) is None
        },
{
    lemma_member_keys();
    lemma_given(item, "ref_id"@);
}

/// Finding needs a reference and what is to be found.
pub proof fn lemma_find_item(item: JsonV, key: Seq<char>)
    ensures
        item.str_at("ref_id"@) is None || is_blank(item.str_at("ref_id"@)->0) ==> command(
            Operation::Find,
            item,
        ) is None,
        item.str_at("pattern"@) is None || is_blank(item.str_at("pattern"@)->0) ==> command(
            Operation::Find,
            item,
        ) is None,
        item.str_at("ref_id"@) is Some && item.str_at("pattern"@) is Some && !is_blank(
            item.str_at("ref_id"@)->0,
        ) && !is_blank(item.str_at("pattern"@)->0) ==> {
            &&& command(Operation::Find, item) matches Some(c)
            &&& c.get("ref_id"@) == Some(JsonV::Str(trimmed(item.str_at("ref_id"@)->0)))
            &&& c.get("pattern"@) == Some(JsonV::Str(trimmed(item.str_at("pattern"@)->0)))
            &&& key != "ref_id"@ && key != "pattern"@ ==> c.get(key) is None
        },
{
    lemma_member_keys();
    lemma_given(item, "ref_id"@);
    lemma_given(item, "pattern"@);
}

/// Clicking needs a reference and the number of what is clicked, whichever it is.
pub proof fn lemma_click_item(item: JsonV, key: Seq<char>)
    ensures
        item.str_at("ref_id"@) is None || is_blank(item.str_at("ref_id"@)->0) ==> command(
            Operation::Click,
            item,
        ) is None,
        item.i64_at("id"@) is None ==> command(Operation::Click, item) is None,
        item.str_at("ref_id"@) is Some && item.i64_at("id"@) is Some && !is_blank(
            item.str_at("ref_id"@)->0,
        ) ==> {
            &&& command(Operation::Click, item) matches Some(c)
            &&& c.get("ref_id"@) == Some(JsonV::Str(trimmed(item.str_at("ref_id"@)->0)))
            &&& c.get("id"@) == Some(JsonV::Int(item.i64_at("id"@)->0))
            &&& key != "ref_id"@ && key != "id"@ ==> c.get(key) is None
        },
{
    lemma_member_keys();
    lemma_given(item, "ref_id"@);
}

/// One more item adds its command, where it asks for one, behind the others.
pub proof fn lemma_one_more_command(op: Operation, items: Seq<JsonV>, item: JsonV)
    ensures
        commands(op, Seq::empty()) == Seq::<JsonV>::empty(),
        command(op, item) matches Some(c) ==> commands(op, items.push(item)) == commands(
            op,
            items,
        ).push(c),
        command(op, item) is None ==> commands(op, items.push(item)) == commands(op, items),
{
    assert(items.push(item).drop_last() =~= items);
}

/// What stands in a research under the key of an operation: the commands of the items that the
/// arguments give under the same key, where there are any.
pub open spec fn is_list_of(sent: Option<JsonV>, op: Operation, given: Option<Seq<JsonV>>) -> bool {
    match given {
        Some(items) => if commands(op, items).len() > 0 {
            sent == Some(JsonV::Array(commands(op, items)))
        } else {
            sent is None
        },
        None => sent is None,
    }
}

/// A research holds the commands of its four operations, each under its own key, and nothing else
/// but the length of the response.
pub proof fn lemma_research_lists(args: JsonV, key: Seq<char>)
    ensures
        is_list_of(
            research_commands(args).get("search_query"@),
            Operation::Search,
            args.array_at("search_query"@),
        ),
        is_list_of(
            research_commands(args).get("open"@),
            Operation::Open,
            args.array_at("open"@),
        ),
        is_list_of(
            research_commands(args).get("find"@),
            Operation::Find,
            args.array_at("find"@),
        ),
        is_list_of(
            research_commands(args).get("click"@),
            Operation::Click,
            args.array_at("click"@),
        ),
        key != "search_query"@ && key != "open"@ && key != "find"@ && key != "click"@ && key
            != "response_length"@ ==> research_commands(args).get(key) is None,
{
    lemma_keys();
    lemma_research_operation(Operation::Search, args);
    lemma_research_operation(Operation::Open, args);
    lemma_research_operation(Operation::Find, args);
    lemma_research_operation(Operation::Click, args);
}

/// A search sends what is asked, without the white space around it, in one query and no other
/// operation.
pub proof fn lemma_search_members(args: JsonV, asked_for: Seq<char>, key: Seq<char>)
    requires
        args.str_at("query"@) == Some(asked_for),
    ensures
        search_commands(args).get("search_query"@) == Some(
            JsonV::Array(seq![query(trimmed(asked_for), args)]),
        ),
        args.str_at("response_length"@) matches Some(s) ==> search_commands(args).get(
            "response_length"@,
        ) == Some(JsonV::Str(s)),
        key != "search_query"@ && key != "response_length"@ ==> search_commands(args).get(key)
            is None,
{
    lemma_keys();
}

/// Some commands hold an operation where one of the four keys is there, and only there.
pub proof fn lemma_operations(commands: JsonV)
    ensures
        commands.get("search_query"@) is Some ==> has_operation(commands),
        commands.get("open"@) is Some ==> has_operation(commands),
        commands.get("find"@) is Some ==> has_operation(commands),
        commands.get("click"@) is Some ==> has_operation(commands),
        has_operation(commands) ==> commands.get("search_query"@) is Some || commands.get("open"@)
            is Some || commands.get("find"@) is Some || commands.get("click"@) is Some,
{
}

} // verus!
