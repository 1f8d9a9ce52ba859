//! The server: what it answers to a message, and what it has to do before it can answer.
//!
//! [`handle`] answers a message, or says what must be done first; [`finish_call`] and
//! [`finish_fetch`] make the answer when that is done.

use vstd::prelude::*;
use vstd::string::*;

use crate::commands::asks_for_something;
use crate::commands::build_research_commands;
use crate::commands::build_search_commands;
use crate::commands::has_operation;
use crate::commands::research_commands;
use crate::commands::search_commands;
use crate::html::web_fetch;
use crate::html::Fetched;
use crate::json::empty_object;
use crate::json::items_view;
use crate::json::lemma_items_view;
use crate::json::Json;
use crate::json::JsonV;
use crate::render::format_text;
use crate::render::formatted;
use crate::results::is_backend_error;
use crate::results::tells_of_failure;
use crate::session::Session;
use crate::text::cat;
use crate::text::is_blank;
use crate::text::lemma_blank_trimmed;
use crate::text::same;
use crate::text::trimmed;
use crate::tools::is_listed;
use crate::tools::lemma_listed;
use crate::tools::tool_table;
use crate::tools::tools_list;

verus! {

/// What a call of a tool asks for.
pub enum Work {
    /// Nothing: the text is the answer, and says that the call was wrong.
    Refuse(String),
    /// These commands must be sent to the search service.
    Call(Json),
    /// This page must be fetched.
    Fetch(String),
}

/// What a call of a tool asks for, as a value.
pub enum WorkV {
    Refuse(Seq<char>),
    Call(JsonV),
    Fetch(Seq<char>),
}

impl View for Work {
    type V = WorkV;

    open spec fn view(&self) -> WorkV {
        match *self {
            Work::Refuse(text) => WorkV::Refuse(text@),
            Work::Call(commands) => WorkV::Call(commands@),
            Work::Fetch(url) => WorkV::Fetch(url@),
        }
    }
}

/// What a call of the tool of that name asks for. A search needs a query, a research an
/// operation, a fetch an address.
pub open spec fn work_for(name: Seq<char>, args: JsonV) -> WorkV {
    if name == "codex_web_search"@ {
        if args.trimmed_at("query"@).len() == 0 {
            WorkV::Refuse("参数 query 不能为空。"@)
        } else {
            WorkV::Call(search_commands(args))
        }
    } else if name == "codex_web_research"@ {
        if has_operation(research_commands(args)) {
            WorkV::Call(research_commands(args))
        } else {
            WorkV::Refuse("至少需要提供一项操作：search_query / open / find / click。"@)
        }
    } else if name == "web_fetch"@ {
        if args.trimmed_at("url"@).len() == 0 {
            WorkV::Refuse("参数 url 不能为空。"@)
        } else {
            WorkV::Fetch(args.trimmed_at("url"@))
        }
    } else {
        WorkV::Refuse("未知工具: "@ + name)
    }
}

/// The session after a call of a tool: a research can name the one to go on with.
pub open spec fn session_after(
    session: Option<Seq<char>>,
    name: Seq<char>,
    args: JsonV,
) -> Option<Seq<char>> {
    if name == "codex_web_research"@ && args.trimmed_at("session_id"@).len() > 0 {
        Some(args.trimmed_at("session_id"@))
    } else {
        session
    }
}

/// Finds out what a call of a tool asks for, and changes the session where the call says so.
pub fn handle_tool_call(session: &mut Session, name: &str, args: &Json) -> (r: Work)
    ensures
        r@ == work_for(name@, args@),
        final(session)@ == session_after(old(session)@, name@, args@),
{
    proof {
        lemma_tool_names();
    }
    if same(name, "codex_web_search") {
        if args.trimmed_at("query").as_str().is_empty() {
            return Work::Refuse("参数 query 不能为空。".to_string());
        }
        return Work::Call(build_search_commands(args));
    }
    if same(name, "codex_web_research") {
        let id = args.trimmed_at("session_id");
        if !id.as_str().is_empty() {
            session.id = Some(id);
        }
        let commands = build_research_commands(args);
        if !asks_for_something(&commands) {
            return Work::Refuse(
                "至少需要提供一项操作：search_query / open / find / click。".to_string(),
            );
        }
        return Work::Call(commands);
    }
    if same(name, "web_fetch") {
        let url = args.trimmed_at("url");
        if url.as_str().is_empty() {
            return Work::Refuse("参数 url 不能为空。".to_string());
        }
        return Work::Fetch(url);
    }
    Work::Refuse(cat("未知工具: ", name))
}

// ---------------------------------------------------------------------------
// Replies
// ---------------------------------------------------------------------------
/// A reply to the message with that identifier.
pub open spec fn reply(id: JsonV, key: Seq<char>, value: JsonV) -> JsonV {
    empty_object().with("jsonrpc"@, JsonV::Str("2.0"@)).with("id"@, id).with(key, value)
}

/// The result of a tool: its text, and whether it is an error.
pub open spec fn tool_result(text: Seq<char>, is_error: bool) -> JsonV {
    let part = empty_object().with("type"@, JsonV::Str("text"@)).with("text"@, JsonV::Str(text));
    empty_object().with("content"@, JsonV::Array(seq![part])).with(
        "isError"@,
        JsonV::Bool(is_error),
    )
}

/// The reply to a call of a tool.
pub open spec fn tool_reply(id: JsonV, text: Seq<char>, is_error: bool) -> JsonV {
    reply(id, "result"@, tool_result(text, is_error))
}

/// The version of the protocol that a client asks for, else the one of the server.
pub open spec fn protocol_version(msg: JsonV) -> Seq<char> {
    match msg.get("params"@) {
        Some(params) => match params.str_at("protocolVersion"@) {
            Some(v) => v,
            None => "2024-11-05"@,
        },
        None => "2024-11-05"@,
    }
}

/// What the server says of itself.
pub open spec fn introduction(msg: JsonV) -> JsonV {
    let info = empty_object().with("name"@, JsonV::Str("codex-web-search"@)).with(
        "version"@,
        JsonV::Str("2.3.0"@),
    );
    empty_object().with("protocolVersion"@, JsonV::Str(protocol_version(msg))).with(
        "capabilities"@,
        empty_object().with("tools"@, empty_object()),
    ).with("serverInfo"@, info)
}

/// The code of JSON-RPC for a method that is not there.
pub const METHOD_NOT_FOUND: i64 = -32601;

/// The error for a method that the server does not have.
pub open spec fn unknown_method(method: Seq<char>) -> JsonV {
    empty_object().with("code"@, JsonV::Int(METHOD_NOT_FOUND)).with(
        "message"@,
        JsonV::Str("Method not found: "@ + method),
    )
}

/// The identifier to reply to: that of the message, or null where it has none.
pub open spec fn reply_id(msg: JsonV) -> JsonV {
    match msg.get("id"@) {
        Some(id) => id,
        None => JsonV::Null,
    }
}

/// The tool that a message calls; empty where it names none.
pub open spec fn tool_name(msg: JsonV) -> Seq<char> {
    match msg.get("params"@) {
        Some(params) => match params.str_at("name"@) {
            Some(name) => name,
            None => Seq::empty(),
        },
        None => Seq::empty(),
    }
}

/// The arguments that a message calls a tool with; null where it has none.
pub open spec fn tool_arguments(msg: JsonV) -> JsonV {
    match msg.get("params"@) {
        Some(params) => match params.get("arguments"@) {
            Some(args) => args,
            None => JsonV::Null,
        },
        None => JsonV::Null,
    }
}

/// What follows a message.
pub enum Step {
    /// Nothing.
    Silent,
    /// This reply.
    Reply(Json),
    /// These commands are sent to the search service; the reply goes to that identifier.
    Call { id: Json, commands: Json },
    /// This page is fetched; the reply goes to that identifier.
    Fetch { id: Json, url: String },
}

/// What follows a message, as a value.
pub enum StepV {
    Silent,
    Reply(JsonV),
    Call { id: JsonV, commands: JsonV },
    Fetch { id: JsonV, url: Seq<char> },
}

impl View for Step {
    type V = StepV;

    open spec fn view(&self) -> StepV {
        match *self {
            Step::Silent => StepV::Silent,
            Step::Reply(v) => StepV::Reply(v@),
            Step::Call { id, commands } => StepV::Call { id: id@, commands: commands@ },
            Step::Fetch { id, url } => StepV::Fetch { id: id@, url: url@ },
        }
    }
}

/// What follows a call of a tool.
pub open spec fn tool_step(msg: JsonV) -> StepV {
    let id = reply_id(msg);
    match work_for(tool_name(msg), tool_arguments(msg)) {
        WorkV::Refuse(text) => StepV::Reply(tool_reply(id, text, true)),
        WorkV::Call(commands) => StepV::Call { id, commands },
        WorkV::Fetch(url) => StepV::Fetch { id, url },
    }
}

/// What follows a message. A message without a method is passed over; so is one with a method
/// that the server does not have, unless it has an identifier.
pub open spec fn step_for(msg: JsonV) -> StepV {
    let id = reply_id(msg);
    match msg.str_at("method"@) {
        None => StepV::Silent,
        Some(method) => if method == "initialize"@ {
            StepV::Reply(reply(id, "result"@, introduction(msg)))
        } else if method == "notifications/initialized"@ || method == "initialized"@ {
            StepV::Silent
        } else if method == "tools/list"@ {
            StepV::Reply(
                reply(
                    id,
                    "result"@,
                    empty_object().with("tools"@, JsonV::Array(tool_table())),
                ),
            )
        } else if method == "tools/call"@ {
            tool_step(msg)
        } else if method == "ping"@ {
            StepV::Reply(reply(id, "result"@, empty_object()))
        } else if msg.get("id"@) is Some {
            StepV::Reply(reply(id, "error"@, unknown_method(method)))
        } else {
            StepV::Silent
        },
    }
}

/// The session after a message.
pub open spec fn session_after_message(session: Option<Seq<char>>, msg: JsonV) -> Option<
    Seq<char>,
> {
    if msg.str_at("method"@) == Some("tools/call"@) {
        session_after(session, tool_name(msg), tool_arguments(msg))
    } else {
        session
    }
}

fn make_reply(id: Json, key: &str, value: Json) -> (r: Json)
    ensures
        r@ == reply(id@, key@, value@),
{
    Json::object().with("jsonrpc", Json::text("2.0")).with("id", id).with(key, value)
}

/// Makes the reply to a call of a tool.
pub fn make_tool_reply(id: Json, text: String, is_error: bool) -> (r: Json)
    ensures
        r@ == tool_reply(id@, text@, is_error),
{
    let mut content: Vec<Json> = Vec::new();
    content.push(Json::object().with("type", Json::text("text")).with("text", Json::Str(text)));
    proof {
        lemma_items_view(content@);
        assert(items_view(content@) =~= seq![
            empty_object().with("type"@, JsonV::Str("text"@)).with("text"@, JsonV::Str(text@)),
        ]);
    }
    let result = Json::object().with("content", Json::Array(content)).with(
        "isError",
        Json::Bool(is_error),
    );
    make_reply(id, "result", result)
}

fn introduce(msg: &Json) -> (r: Json)
    ensures
        r@ == introduction(msg@),
{
    let asked = match msg.get("params") {
        Some(params) => params.str_at("protocolVersion"),
        None => None,
    };
    let version = match asked {
        Some(v) => v,
        None => "2024-11-05",
    };
    let info = Json::object().with("name", Json::text("codex-web-search")).with(
        "version",
        Json::text("2.3.0"),
    );
    Json::object().with("protocolVersion", Json::text(version)).with(
        "capabilities",
        Json::object().with("tools", Json::object()),
    ).with("serverInfo", info)
}

fn step_of_call(session: &mut Session, msg: &Json, id: Json) -> (r: Step)
    requires
        id@ == reply_id(msg@),
    ensures
        r@ == tool_step(msg@),
        final(session)@ == session_after(old(session)@, tool_name(msg@), tool_arguments(msg@)),
{
    let none = Json::Null;
    let (name, args) = match msg.get("params") {
        Some(params) => {
            let name = match params.str_at("name") {
                Some(n) => n.to_string(),
                None => String::new(),
            };
            let args = match params.get("arguments") {
                Some(a) => a,
                None => &none,
            };
            (name, args)
        },
        None => (String::new(), &none),
    };
    match handle_tool_call(session, name.as_str(), args) {
        Work::Refuse(text) => Step::Reply(make_tool_reply(id, text, true)),
        Work::Call(commands) => Step::Call { id, commands },
        Work::Fetch(url) => Step::Fetch { id, url },
    }
}

/// Handles a message: the reply, or what must be done before it can be made.
pub fn handle(session: &mut Session, msg: &Json) -> (r: Step)
    ensures
        r@ == step_for(msg@),
        final(session)@ == session_after_message(old(session)@, msg@),
{
    proof {
        lemma_methods();
    }
    let known = msg.get("id");
    let id = match known {
        Some(v) => v.copy(),
        None => Json::Null,
    };
    let method = match msg.str_at("method") {
        Some(m) => m,
        None => {
            return Step::Silent;
        },
    };
    if same(method, "initialize") {
        return Step::Reply(make_reply(id, "result", introduce(msg)));
    }
    if same(method, "notifications/initialized") || same(method, "initialized") {
        return Step::Silent;
    }
    if same(method, "tools/list") {
        return Step::Reply(
            make_reply(id, "result", Json::object().with("tools", tools_list())),
        );
    }
    if same(method, "tools/call") {
        return step_of_call(session, msg, id);
    }
    if same(method, "ping") {
        return Step::Reply(make_reply(id, "result", Json::object()));
    }
    if known.is_some() {
        let error = Json::object().with("code", Json::Int(METHOD_NOT_FOUND)).with(
            "message",
            Json::Str(cat("Method not found: ", method)),
        );
        return Step::Reply(make_reply(id, "error", error));
    }
    Step::Silent
}

/// What a call of the search service comes to, as the text of a tool and whether it is an error.
pub open spec fn call_answer(result: Result<JsonV, Seq<char>>) -> (Seq<char>, bool) {
    match result {
        Ok(norm) => (formatted(norm, true), tells_of_failure(norm)),
        Err(message) => (message, true),
    }
}

/// Makes the reply to a search or a research from what the call came to.
pub fn finish_call(id: Json, result: Result<Json, String>) -> (r: Json)
    ensures
        ({
            let (text, is_error) = call_answer(
                match result {
                    Ok(norm) => Ok(norm@),
                    Err(message) => Err(message@),
                },
            );
            r@ == tool_reply(id@, text, is_error)
        }),
{
    match result {
        Ok(norm) => make_tool_reply(id, format_text(&norm, true), is_backend_error(&norm)),
        Err(message) => make_tool_reply(id, message, true),
    }
}

/// Makes the reply to a fetch from what the fetch came to.
pub fn finish_fetch(id: Json, fetched: &Fetched) -> (r: Json)
    requires
        fetched.readable(),
    ensures
        match *fetched {
            Fetched::Failed(why) => r@ == tool_reply(id@, "抓取失败: "@ + why@, true),
            Fetched::Unreadable(why) => r@ == tool_reply(id@, "读取正文失败: "@ + why@, true),
            Fetched::Page { body, .. } => r@ == tool_reply(
                id@,
                crate::html::page_text(
                    crate::charset::page_source(fetched.content_type(), body@),
                ),
                false,
            ),
        },
{
    match web_fetch(fetched) {
        Ok(text) => make_tool_reply(id, text, false),
        Err(message) => make_tool_reply(id, message, true),
    }
}

// ---------------------------------------------------------------------------
// Laws
// ---------------------------------------------------------------------------
proof fn lemma_tool_names()
    ensures
        "codex_web_search"@ != "codex_web_research"@,
        "codex_web_search"@ != "web_fetch"@,
        "codex_web_research"@ != "web_fetch"@,
{
    reveal_strlit("codex_web_search");
    reveal_strlit("codex_web_research");
    reveal_strlit("web_fetch");
    assert("codex_web_search"@.len() == 16 && "codex_web_research"@.len() == 18
        && "web_fetch"@.len() == 9);
}

proof fn lemma_methods()
    ensures
        "tools/call"@ != "initialize"@,
        "tools/call"@ != "notifications/initialized"@,
        "tools/call"@ != "initialized"@,
        "tools/call"@ != "tools/list"@,
        "tools/call"@ != "ping"@,
{
    reveal_strlit("tools/call");
    reveal_strlit("initialize");
    reveal_strlit("notifications/initialized");
    reveal_strlit("initialized");
    reveal_strlit("tools/list");
    reveal_strlit("ping");
    assert("tools/call"@.len() == 10 && "initialize"@.len() == 10
        && "notifications/initialized"@.len() == 25 && "initialized"@.len() == 11
        && "tools/list"@.len() == 10 && "ping"@.len() == 4);
    assert("tools/call"@[0] != "initialize"@[0]);
    assert("tools/call"@[6] != "tools/list"@[6]);
}

proof fn lemma_reply(id: JsonV, key: Seq<char>, value: JsonV)
    requires
        key == "result"@ || key == "error"@,
    ensures
        reply(id, key, value).str_at("jsonrpc"@) == Some("2.0"@),
        reply(id, key, value).get("id"@) == Some(id),
        reply(id, key, value).get(key) == Some(value),
        (reply(id, key, value).get("result"@) is Some) != (reply(id, key, value).get(
            "error"@,
        ) is Some),
{
    reveal_strlit("jsonrpc");
    reveal_strlit("id");
    reveal_strlit("result");
    reveal_strlit("error");
    assert("jsonrpc"@.len() == 7 && "id"@.len() == 2 && "result"@.len() == 6 && "error"@.len()
        == 5);
}

/// A reply is a JSON-RPC 2.0 reply to the message: it has the identifier of the message, or null
/// where that has none, and either a result or an error.
pub proof fn lemma_reply_to_message(msg: JsonV)
    ensures
        step_for(msg) matches StepV::Reply(v) ==> {
            &&& v.str_at("jsonrpc"@) == Some("2.0"@)
            &&& v.get("id"@) == Some(reply_id(msg))
            &&& (v.get("result"@) is Some) != (v.get("error"@) is Some)
        },
        step_for(msg) matches StepV::Call { id, .. } ==> id == reply_id(msg),
        step_for(msg) matches StepV::Fetch { id, .. } ==> id == reply_id(msg),
{
    let id = reply_id(msg);
    if let StepV::Reply(v) = step_for(msg) {
        if v.get("error"@) is Some {
            reveal_strlit("jsonrpc");
            reveal_strlit("id");
            reveal_strlit("result");
            reveal_strlit("error");
            assert("jsonrpc"@.len() == 7 && "id"@.len() == 2 && "result"@.len() == 6
                && "error"@.len() == 5);
        }
        lemma_reply(id, "result"@, introduction(msg));
        lemma_reply(id, "result"@, empty_object().with("tools"@, JsonV::Array(tool_table())));
        lemma_reply(id, "result"@, empty_object());
        if let Some(method) = msg.str_at("method"@) {
            lemma_reply(id, "error"@, unknown_method(method));
        }
        if let WorkV::Refuse(text) = work_for(tool_name(msg), tool_arguments(msg)) {
            lemma_reply(id, "result"@, tool_result(text, true));
        }
    }
}

/// The reply to a tool has the identifier of the message.
pub proof fn lemma_tool_reply(id: JsonV, text: Seq<char>, is_error: bool)
    ensures
        tool_reply(id, text, is_error).get("id"@) == Some(id),
        tool_reply(id, text, is_error).get("result"@) == Some(tool_result(text, is_error)),
{
    lemma_reply(id, "result"@, tool_result(text, is_error));
}

/// A message with a method and an identifier never goes unanswered, unless it only says that the
/// client is ready.
pub proof fn lemma_requests_answered(msg: JsonV)
    requires
        msg.get("id"@) is Some,
        msg.str_at("method"@) is Some,
        msg.str_at("method"@) != Some("notifications/initialized"@),
        msg.str_at("method"@) != Some("initialized"@),
    ensures
        step_for(msg) !is Silent,
{
}

/// Every tool that is listed can be called, and no other: a call is refused as unknown where the
/// tool is not listed, and only there.
pub proof fn lemma_listed_tools_known(name: Seq<char>, args: JsonV)
    ensures
        (work_for(name, args) == WorkV::Refuse("未知工具: "@ + name)) == !is_listed(name),
{
    lemma_listed(name);
    lemma_tool_names();
    reveal_strlit("未知工具: ");
    reveal_strlit("参数 query 不能为空。");
    reveal_strlit("参数 url 不能为空。");
    reveal_strlit("至少需要提供一项操作：search_query / open / find / click。");
    assert(("未知工具: "@ + name)[0] == '未');
    assert("参数 query 不能为空。"@[0] == '参');
    assert("参数 url 不能为空。"@[0] == '参');
    assert("至少需要提供一项操作：search_query / open / find / click。"@[0] == '至');
}

/// A message changes the session only where it calls a research that names one.
pub proof fn lemma_session_unchanged(session: Option<Seq<char>>, msg: JsonV)
    requires
        msg.str_at("method"@) != Some("tools/call"@) || tool_name(msg) != "codex_web_research"@
            || tool_arguments(msg).trimmed_at("session_id"@).len() == 0,
    ensures
        session_after_message(session, msg) == session,
{
}

/// A search without a query, a research without an operation and a fetch without an address are
/// refused, and nothing is sent.
pub proof fn lemma_empty_calls_refused(args: JsonV)
    ensures
        args.trimmed_at("query"@).len() == 0 ==> work_for("codex_web_search"@, args) is Refuse,
        !has_operation(research_commands(args)) ==> work_for("codex_web_research"@, args) is Refuse,
        args.trimmed_at("url"@).len() == 0 ==> work_for("web_fetch"@, args) is Refuse,
{
    lemma_tool_names();
}

// ---------------------------------------------------------------------------
// Laws of the messages and of the tools
// ---------------------------------------------------------------------------
/// A search with a query is sent, whatever else it gives; without one it is refused.
pub proof fn lemma_search_called(args: JsonV)
    ensures
        args.str_at("query"@) matches Some(s) ==> !is_blank(s) ==> work_for(
            "codex_web_search"@,
            args,
        ) == WorkV::Call(search_commands(args)),
        args.str_at("query"@) is None || is_blank(args.str_at("query"@)->0) ==> work_for(
            "codex_web_search"@,
            args,
        ) == WorkV::Refuse("参数 query 不能为空。"@),
{
    lemma_tool_names();
    if let Some(s) = args.str_at("query"@) {
        lemma_blank_trimmed(s);
    }
}

/// A research that asks for something is sent; without an operation it is refused.
pub proof fn lemma_research_called(args: JsonV)
    ensures
        ({
            let sent = research_commands(args);
            let asks = sent.get("search_query"@) is Some || sent.get("open"@) is Some || sent.get(
                "find"@,
            ) is Some || sent.get("click"@) is Some;
            &&& asks ==> work_for("codex_web_research"@, args) == WorkV::Call(sent)
            &&& !asks ==> work_for("codex_web_research"@, args) == WorkV::Refuse(
                "至少需要提供一项操作：search_query / open / find / click。"@,
            )
        }),
{
    lemma_tool_names();
}

/// A fetch with an address is made, of that address without the white space around it; without
/// one it is refused.
pub proof fn lemma_fetch_called(args: JsonV)
    ensures
        args.str_at("url"@) matches Some(s) ==> !is_blank(s) ==> work_for("web_fetch"@, args)
            == WorkV::Fetch(trimmed(s)),
        args.str_at("url"@) is None || is_blank(args.str_at("url"@)->0) ==> work_for(
            "web_fetch"@,
            args,
        ) == WorkV::Refuse("参数 url 不能为空。"@),
{
    lemma_tool_names();
    if let Some(s) = args.str_at("url"@) {
        lemma_blank_trimmed(s);
    }
}

/// A tool that is none of the three is refused by its name.
pub proof fn lemma_unknown_tool(name: Seq<char>, args: JsonV)
    requires
        name != "codex_web_search"@,
        name != "codex_web_research"@,
        name != "web_fetch"@,
    ensures
        work_for(name, args) == WorkV::Refuse("未知工具: "@ + name),
{
}

/// A research that names a session goes on with it, whether or not it is then refused.
pub proof fn lemma_session_named(session: Option<Seq<char>>, args: JsonV, id: Seq<char>)
    requires
        args.str_at("session_id"@) == Some(id),
        !is_blank(id),
    ensures
        session_after(session, "codex_web_research"@, args) == Some(trimmed(id)),
{
    lemma_blank_trimmed(id);
}

/// No other call changes the session.
pub proof fn lemma_session_not_named(session: Option<Seq<char>>, name: Seq<char>, args: JsonV)
    requires
        name != "codex_web_research"@ || args.str_at("session_id"@) is None || is_blank(
            args.str_at("session_id"@)->0,
        ),
    ensures
        session_after(session, name, args) == session,
{
    if let Some(id) = args.str_at("session_id"@) {
        lemma_blank_trimmed(id);
    }
}

/// The identifier of the message, or null.
proof fn lemma_reply_id(msg: JsonV)
    ensures
        msg.get("id"@) matches Some(id) ==> reply_id(msg) == id,
        msg.get("id"@) is None ==> reply_id(msg) is Null,
{
}

/// Every reply carries the identifier of its message, and null where that has none.
pub proof fn lemma_identifier_carried(msg: JsonV)
    ensures
        step_for(msg) matches StepV::Reply(v) ==> {
            &&& msg.get("id"@) matches Some(id) ==> v.get("id"@) == Some(id)
            &&& msg.get("id"@) is None ==> v.get("id"@) == Some(JsonV::Null)
        },
        step_for(msg) matches StepV::Call { id, .. } ==> {
            &&& msg.get("id"@) matches Some(own) ==> id == own
            &&& msg.get("id"@) is None ==> id is Null
        },
        step_for(msg) matches StepV::Fetch { id, .. } ==> {
            &&& msg.get("id"@) matches Some(own) ==> id == own
            &&& msg.get("id"@) is None ==> id is Null
        },
{
    lemma_reply_to_message(msg);
    lemma_reply_id(msg);
}

/// A client that introduces itself is told the protocol, which is its own where it names one, that
/// there are tools, and the name and the version of the server.
pub proof fn lemma_introduced(msg: JsonV)
    requires
        msg.str_at("method"@) == Some("initialize"@),
    ensures
        ({
            let asked = match msg.get("params"@) {
                Some(params) => params.str_at("protocolVersion"@),
                None => None,
            };
            &&& step_for(msg) matches StepV::Reply(v)
            &&& v.get("result"@) matches Some(result)
            &&& asked matches Some(version) ==> result.str_at("protocolVersion"@) == Some(version)
            &&& asked is None ==> result.str_at("protocolVersion"@) == Some("2024-11-05"@)
            &&& result.get("capabilities"@) matches Some(able)
            &&& able.get("tools"@) == Some(empty_object())
            &&& result.get("serverInfo"@) matches Some(info)
            &&& info.str_at("name"@) == Some("codex-web-search"@)
            &&& info.str_at("version"@) == Some("2.3.0"@)
        }),
{
    lemma_reply(reply_id(msg), "result"@, introduction(msg));
    reveal_strlit("protocolVersion");
    reveal_strlit("capabilities");
    reveal_strlit("serverInfo");
    reveal_strlit("name");
    reveal_strlit("version");
    assert("protocolVersion"@.len() == 15 && "capabilities"@.len() == 12 && "serverInfo"@.len()
        == 10 && "name"@.len() == 4 && "version"@.len() == 7);
}

/// A client that asks for the tools gets them all, and one that asks for a sign of life gets an
/// empty result.
pub proof fn lemma_tools_and_ping(msg: JsonV)
    ensures
        msg.str_at("method"@) == Some("tools/list"@) ==> {
            &&& step_for(msg) matches StepV::Reply(v)
            &&& v.get("result"@) matches Some(result)
            &&& result.get("tools"@) == Some(JsonV::Array(tool_table()))
        },
        msg.str_at("method"@) == Some("ping"@) ==> {
            &&& step_for(msg) matches StepV::Reply(v)
            &&& v.get("result"@) == Some(empty_object())
        },
{
    lemma_methods();
    lemma_other_methods();
    let id = reply_id(msg);
    lemma_reply(id, "result"@, empty_object().with("tools"@, JsonV::Array(tool_table())));
    lemma_reply(id, "result"@, empty_object());
}

proof fn lemma_other_methods()
    ensures
        "tools/list"@ != "initialize"@,
        "tools/list"@ != "notifications/initialized"@,
        "tools/list"@ != "initialized"@,
        "tools/list"@ != "ping"@,
        "ping"@ != "initialize"@,
        "ping"@ != "notifications/initialized"@,
        "ping"@ != "initialized"@,
        "initialize"@ != "notifications/initialized"@,
        "initialize"@ != "initialized"@,
{
    reveal_strlit("initialize");
    reveal_strlit("notifications/initialized");
    reveal_strlit("initialized");
    reveal_strlit("tools/list");
    reveal_strlit("ping");
    assert("initialize"@.len() == 10 && "notifications/initialized"@.len() == 25
        && "initialized"@.len() == 11 && "tools/list"@.len() == 10 && "ping"@.len() == 4);
    assert("tools/list"@[0] != "initialize"@[0]);
}

/// A message without a method, and one that only says that the client is ready, is passed over.
/// So is a method that the server does not have, where no answer is asked for; else the answer is
/// the error for it, which names the method.
pub proof fn lemma_nothing_to_do(msg: JsonV)
    ensures
        msg.str_at("method"@) is None ==> step_for(msg) is Silent,
        msg.str_at("method"@) == Some("notifications/initialized"@) ==> step_for(msg) is Silent,
        msg.str_at("method"@) == Some("initialized"@) ==> step_for(msg) is Silent,
        msg.str_at("method"@) matches Some(method) ==> method != "initialize"@ && method
            != "notifications/initialized"@ && method != "initialized"@ && method != "tools/list"@
            && method != "tools/call"@ && method != "ping"@ ==> {
            &&& msg.get("id"@) is None ==> step_for(msg) is Silent
            &&& msg.get("id"@) is Some ==> {
                &&& step_for(msg) matches StepV::Reply(v)
                &&& v.get("error"@) matches Some(e)
                &&& e.i64_at("code"@) == Some(-32601i64)
                &&& e.str_at("message"@) == Some("Method not found: "@ + method)
            }
        },
{
    lemma_other_methods();
    if let Some(method) = msg.str_at("method"@) {
        lemma_reply(reply_id(msg), "error"@, unknown_method(method));
    }
    reveal_strlit("code");
    reveal_strlit("message");
    assert("code"@.len() == 4 && "message"@.len() == 7);
}

/// A call of a tool is done with the name and the arguments that the message gives: sent, fetched
/// or refused as the tool asks.
pub proof fn lemma_tool_called(msg: JsonV, params: JsonV, name: Seq<char>, args: JsonV)
    requires
        msg.str_at("method"@) == Some("tools/call"@),
        msg.get("params"@) == Some(params),
        params.str_at("name"@) == Some(name),
        params.get("arguments"@) == Some(args) || (params.get("arguments"@) is None && args is Null),
    ensures
        match work_for(name, args) {
            WorkV::Call(sent) => step_for(msg) matches StepV::Call { commands, .. } && commands
                == sent,
            WorkV::Fetch(address) => step_for(msg) matches StepV::Fetch { url, .. } && url
                == address,
            WorkV::Refuse(text) => step_for(msg) matches StepV::Reply(v) && says(v, text, true),
        },
        forall|session: Option<Seq<char>>| #[trigger]
            session_after_message(session, msg) == session_after(session, name, args),
{
    lemma_methods();
    if let WorkV::Refuse(text) = work_for(name, args) {
        lemma_said(reply_id(msg), text, true);
    }
}

/// A call that names no tool is refused as a call of a tool without a name.
pub proof fn lemma_no_tool_called(msg: JsonV)
    requires
        msg.str_at("method"@) == Some("tools/call"@),
        msg.get("params"@) is None || msg.get("params"@)->0.str_at("name"@) is None,
    ensures
        step_for(msg) matches StepV::Reply(v) && says(v, "未知工具: "@, true),
{
    lemma_methods();
    lemma_tool_names();
    reveal_strlit("codex_web_search");
    reveal_strlit("codex_web_research");
    reveal_strlit("web_fetch");
    assert("codex_web_search"@.len() == 16 && "codex_web_research"@.len() == 18
        && "web_fetch"@.len() == 9);
    let none = Seq::<char>::empty();
    assert("未知工具: "@ + none =~= "未知工具: "@);
    lemma_said(reply_id(msg), "未知工具: "@, true);
}

/// A reply is the result of a tool: this text and nothing else, and whether it is an error.
pub open spec fn says(reply: JsonV, text: Seq<char>, is_error: bool) -> bool {
    &&& reply.get("result"@) matches Some(result)
    &&& result.get("isError"@) == Some(JsonV::Bool(is_error))
    &&& result.array_at("content"@) matches Some(parts)
    &&& parts.len() == 1
    &&& parts[0].str_at("type"@) == Some("text"@)
    &&& parts[0].str_at("text"@) == Some(text)
}

/// The reply to a tool says its text, all of it, and whether it is an error.
pub proof fn lemma_said(id: JsonV, text: Seq<char>, is_error: bool)
    ensures
        says(tool_reply(id, text, is_error), text, is_error),
        tool_reply(id, text, is_error).get("id"@) == Some(id),
        tool_reply(id, text, is_error).str_at("jsonrpc"@) == Some("2.0"@),
{
    lemma_reply(id, "result"@, tool_result(text, is_error));
    reveal_strlit("content");
    reveal_strlit("isError");
    reveal_strlit("type");
    reveal_strlit("text");
    assert("content"@.len() == 7 && "isError"@.len() == 7 && "type"@.len() == 4 && "text"@.len()
        == 4);
    assert("content"@[0] != "isError"@[0]);
    assert("type"@[1] != "text"@[1]);
}

/// What a call came to is said as it is: a failure by its message, as an error; an answer by its
/// text, with references, and as an error where it tells of one.
pub proof fn lemma_call_answered(norm: JsonV, message: Seq<char>)
    ensures
        call_answer(Ok(norm)).0 == formatted(norm, true),
        call_answer(Ok(norm)).1 == tells_of_failure(norm),
        call_answer(Err(message)) == (message, true),
{
}

/// A reply has a version, an identifier, and a result or an error; no more.
pub proof fn lemma_reply_members(msg: JsonV, key: Seq<char>)
    requires
        key != "jsonrpc"@,
        key != "id"@,
        key != "result"@,
        key != "error"@,
    ensures
        step_for(msg) matches StepV::Reply(v) ==> v.get(key) is None,
{
}

} // verus!
