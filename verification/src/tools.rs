//! The tools that the server offers, with the arguments that they take.

use vstd::prelude::*;

use crate::json::empty_object;
use crate::json::items_view;
use crate::json::lemma_items_view;
use crate::json::Json;
use crate::json::JsonV;

verus! {

/// The schema of a value of some type.
pub open spec fn typed(kind: Seq<char>) -> JsonV {
    empty_object().with("type"@, JsonV::Str(kind))
}

/// A schema with a description.
pub open spec fn described(schema: JsonV, text: Seq<char>) -> JsonV {
    schema.with("description"@, JsonV::Str(text))
}

/// The schema of an array.
pub open spec fn array_of(items: JsonV) -> JsonV {
    typed("array"@).with("items"@, items)
}

/// The schema of an object.
pub open spec fn object_of(properties: JsonV) -> JsonV {
    typed("object"@).with("properties"@, properties)
}

/// The schema of an object with one member that must be there.
pub open spec fn object_requiring(properties: JsonV, member: Seq<char>) -> JsonV {
    object_of(properties).with("required"@, JsonV::Array(seq![JsonV::Str(member)]))
}

/// The schema of the length of a response.
pub open spec fn length_schema() -> JsonV {
    typed("string"@).with(
        "enum"@,
        JsonV::Array(
            seq![JsonV::Str("short"@), JsonV::Str("medium"@), JsonV::Str("long"@)],
        ),
    )
}

/// A tool: its name, what it does, and the schema of its arguments.
pub open spec fn tool(name: Seq<char>, description: Seq<char>, schema: JsonV) -> JsonV {
    empty_object().with("name"@, JsonV::Str(name)).with("description"@, JsonV::Str(description)).with(
        "inputSchema"@,
        schema,
    )
}

/// The search tool.
pub open spec fn search_tool() -> JsonV {
    let properties = empty_object().with(
        "query"@,
        described(typed("string"@), "搜索关键词或问题"@),
    ).with("recency"@, described(typed("number"@), "仅返回最近 N 天内的结果（可选）"@)).with(
        "domains"@,
        described(array_of(typed("string"@)), "限定搜索域名列表（可选）"@),
    ).with("response_length"@, described(length_schema(), "返回详略（可选，默认 medium）"@));
    tool(
        "codex_web_search"@,
        "通过 OpenAI Codex 独立搜索端点执行实时联网搜索（需要 Codex 凭证）。返回答案文本与带标题/URL/摘要的来源列表。与底层模型无关，适合非 Anthropic 模型下的联网搜索。"@,
        object_requiring(properties, "query"@),
    )
}

/// The schema of a query of a research.
pub open spec fn query_schema() -> JsonV {
    object_of(
        empty_object().with("q"@, typed("string"@)).with("recency"@, typed("number"@)).with(
            "domains"@,
            array_of(typed("string"@)),
        ),
    )
}

/// The schema of a page to open.
pub open spec fn open_schema() -> JsonV {
    object_of(
        empty_object().with(
            "ref_id"@,
            described(typed("string"@), "要打开的 ref_id，如 turn0search0"@),
        ).with("lineno"@, typed("number"@)),
    )
}

/// The schema of a pattern to find.
pub open spec fn find_schema() -> JsonV {
    object_of(
        empty_object().with("ref_id"@, typed("string"@)).with("pattern"@, typed("string"@)),
    )
}

/// The schema of an element to click.
pub open spec fn click_schema() -> JsonV {
    object_of(empty_object().with("ref_id"@, typed("string"@)).with("id"@, typed("number"@)))
}

/// The research tool.
pub open spec fn research_tool() -> JsonV {
    let properties = empty_object().with(
        "search_query"@,
        described(array_of(query_schema()), "搜索查询列表（可选，至少一项操作）"@),
    ).with("open"@, array_of(open_schema())).with("find"@, array_of(find_schema())).with(
        "click"@,
        array_of(click_schema()),
    ).with("response_length"@, length_schema()).with(
        "session_id"@,
        described(typed("string"@), "覆盖会话 id 以接续之前上下文（可选）"@),
    );
    tool(
        "codex_web_research"@,
        "多步深度研究：在 Codex 联网检索+文档浏览引擎上执行「搜索→打开→页内查找→点击」迭代研究。search_query/open/find/click 可组合，也可多轮用 ref_id 串联。返回内容含 [cN: ...] 可点击标记。需要 Codex 凭证。"@,
        object_of(properties),
    )
}

/// The fetching tool.
pub open spec fn fetch_tool() -> JsonV {
    let properties = empty_object().with("url"@, described(typed("string"@), "要抓取的网址"@));
    tool(
        "web_fetch"@,
        "抓取任意 URL 并返回干净的纯文本（剥离脚本/样式/标签，自动探测 charset 解码 GBK/GB2312 等中文编码，跟随 301/302 重定向）。补齐「搜到链接却读不到正文、JS 渲染页读不到」的短板。"@,
        object_requiring(properties, "url"@),
    )
}

/// The tools, in the order in which they are listed.
pub open spec fn tool_table() -> Seq<JsonV> {
    seq![search_tool(), research_tool(), fetch_tool()]
}

fn with_type(kind: &str) -> (r: Json)
    ensures
        r@ == typed(kind@),
{
    Json::object().with("type", Json::text(kind))
}

fn describe(schema: Json, text: &str) -> (r: Json)
    ensures
        r@ == described(schema@, text@),
{
    schema.with("description", Json::text(text))
}

fn make_array_of(items: Json) -> (r: Json)
    ensures
        r@ == array_of(items@),
{
    with_type("array").with("items", items)
}

fn make_object_of(properties: Json) -> (r: Json)
    ensures
        r@ == object_of(properties@),
{
    with_type("object").with("properties", properties)
}

fn make_object_requiring(properties: Json, member: &str) -> (r: Json)
    ensures
        r@ == object_requiring(properties@, member@),
{
    let mut required: Vec<Json> = Vec::new();
    required.push(Json::text(member));
    proof {
        lemma_items_view(required@);
        assert(items_view(required@) =~= seq![JsonV::Str(member@)]);
    }
    make_object_of(properties).with("required", Json::Array(required))
}

fn make_length_schema() -> (r: Json)
    ensures
        r@ == length_schema(),
{
    let mut lengths: Vec<Json> = Vec::new();
    lengths.push(Json::text("short"));
    lengths.push(Json::text("medium"));
    lengths.push(Json::text("long"));
    proof {
        lemma_items_view(lengths@);
        assert(items_view(lengths@) =~= seq![
            JsonV::Str("short"@),
            JsonV::Str("medium"@),
            JsonV::Str("long"@),
        ]);
    }
    with_type("string").with("enum", Json::Array(lengths))
}

fn make_tool(name: &str, description: &str, schema: Json) -> (r: Json)
    ensures
        r@ == tool(name@, description@, schema@),
{
    Json::object().with("name", Json::text(name)).with("description", Json::text(description)).with(
        "inputSchema",
        schema,
    )
}

fn make_search_tool() -> (r: Json)
    ensures
        r@ == search_tool(),
{
    let properties = Json::object().with(
        "query",
        describe(with_type("string"), "搜索关键词或问题"),
    ).with("recency", describe(with_type("number"), "仅返回最近 N 天内的结果（可选）")).with(
        "domains",
        describe(make_array_of(with_type("string")), "限定搜索域名列表（可选）"),
    ).with("response_length", describe(make_length_schema(), "返回详略（可选，默认 medium）"));
    make_tool(
        "codex_web_search",
        "通过 OpenAI Codex 独立搜索端点执行实时联网搜索（需要 Codex 凭证）。返回答案文本与带标题/URL/摘要的来源列表。与底层模型无关，适合非 Anthropic 模型下的联网搜索。",
        make_object_requiring(properties, "query"),
    )
}

fn make_query_schema() -> (r: Json)
    ensures
        r@ == query_schema(),
{
    make_object_of(
        Json::object().with("q", with_type("string")).with("recency", with_type("number")).with(
            "domains",
            make_array_of(with_type("string")),
        ),
    )
}

fn make_open_schema() -> (r: Json)
    ensures
        r@ == open_schema(),
{
    make_object_of(
        Json::object().with(
            "ref_id",
            describe(with_type("string"), "要打开的 ref_id，如 turn0search0"),
        ).with("lineno", with_type("number")),
    )
}

fn make_find_schema() -> (r: Json)
    ensures
        r@ == find_schema(),
{
    make_object_of(
        Json::object().with("ref_id", with_type("string")).with("pattern", with_type("string")),
    )
}

fn make_click_schema() -> (r: Json)
    ensures
        r@ == click_schema(),
{
    make_object_of(
        Json::object().with("ref_id", with_type("string")).with("id", with_type("number")),
    )
}

fn make_research_tool() -> (r: Json)
    ensures
        r@ == research_tool(),
{
    let properties = Json::object().with(
        "search_query",
        describe(make_array_of(make_query_schema()), "搜索查询列表（可选，至少一项操作）"),
    ).with("open", make_array_of(make_open_schema())).with(
        "find",
        make_array_of(make_find_schema()),
    ).with("click", make_array_of(make_click_schema())).with(
        "response_length",
        make_length_schema(),
    ).with(
        "session_id",
        describe(with_type("string"), "覆盖会话 id 以接续之前上下文（可选）"),
    );
    make_tool(
        "codex_web_research",
        "多步深度研究：在 Codex 联网检索+文档浏览引擎上执行「搜索→打开→页内查找→点击」迭代研究。search_query/open/find/click 可组合，也可多轮用 ref_id 串联。返回内容含 [cN: ...] 可点击标记。需要 Codex 凭证。",
        make_object_of(properties),
    )
}

fn make_fetch_tool() -> (r: Json)
    ensures
        r@ == fetch_tool(),
{
    let properties = Json::object().with("url", describe(with_type("string"), "要抓取的网址"));
    make_tool(
        "web_fetch",
        "抓取任意 URL 并返回干净的纯文本（剥离脚本/样式/标签，自动探测 charset 解码 GBK/GB2312 等中文编码，跟随 301/302 重定向）。补齐「搜到链接却读不到正文、JS 渲染页读不到」的短板。",
        make_object_requiring(properties, "url"),
    )
}

/// Lists the tools.
pub fn tools_list() -> (r: Json)
    ensures
        r@ == JsonV::Array(tool_table()),
{
    let mut tools: Vec<Json> = Vec::new();
    tools.push(make_search_tool());
    tools.push(make_research_tool());
    tools.push(make_fetch_tool());
    proof {
        lemma_items_view(tools@);
        assert(items_view(tools@) =~= tool_table());
    }
    Json::Array(tools)
}

// ---------------------------------------------------------------------------
// Laws
// ---------------------------------------------------------------------------
/// A tool of some name is listed.
pub open spec fn is_listed(name: Seq<char>) -> bool {
    exists|i: int|
        0 <= i < tool_table().len() && (#[trigger] tool_table()[i]).str_at("name"@) == Some(name)
}

/// The tools that are listed are the search, the research and the fetching tool.
pub proof fn lemma_listed(name: Seq<char>)
    ensures
        is_listed(name) == (name == "codex_web_search"@ || name == "codex_web_research"@ || name
            == "web_fetch"@),
{
    let table = tool_table();
    assert(table[0].str_at("name"@) == Some("codex_web_search"@)) by {
        lemma_search_tool_name();
    }
    assert(table[1].str_at("name"@) == Some("codex_web_research"@)) by {
        lemma_research_tool_name();
    }
    assert(table[2].str_at("name"@) == Some("web_fetch"@)) by {
        lemma_fetch_tool_name();
    }
}

proof fn lemma_search_tool_name()
    ensures
        search_tool().str_at("name"@) == Some("codex_web_search"@),
{
    reveal_strlit("name");
    reveal_strlit("description");
    reveal_strlit("inputSchema");
    assert("name"@.len() == 4 && "description"@.len() == 11 && "inputSchema"@.len() == 11);
}

proof fn lemma_research_tool_name()
    ensures
        research_tool().str_at("name"@) == Some("codex_web_research"@),
{
    reveal_strlit("name");
    reveal_strlit("description");
    reveal_strlit("inputSchema");
    assert("name"@.len() == 4 && "description"@.len() == 11 && "inputSchema"@.len() == 11);
}

proof fn lemma_fetch_tool_name()
    ensures
        fetch_tool().str_at("name"@) == Some("web_fetch"@),
{
    reveal_strlit("name");
    reveal_strlit("description");
    reveal_strlit("inputSchema");
    assert("name"@.len() == 4 && "description"@.len() == 11 && "inputSchema"@.len() == 11);
}

} // verus!
