//! Replies to an agent in JSON.

use vstd::prelude::*;

use crate::json;
use crate::json::{integer, push_member, text_list, Json, JsonView};
use crate::mcp;
use crate::mcp::{
    all_tools, IdView, OutcomeView, Param, ParamView, RpcId, RpcOutcome, RpcResponse, Tool, ToolView,
    INSTRUCTIONS, PROTOCOL_VERSION, SERVER_NAME,
};
use crate::pieces;

verus! {

// ---------------------------------------------------------------------------
// Tools
// ---------------------------------------------------------------------------

/// An argument of a tool: its type and what is said of it.
pub open spec fn param_tree(p: ParamView) -> JsonView {
    JsonView::Object(
        seq![("type"@, JsonView::Text(p.kind)), ("description"@, JsonView::Text(p.description))],
    )
}

/// The arguments of a tool, by their names.
pub open spec fn param_members(ps: Seq<ParamView>) -> Seq<(Seq<char>, JsonView)> {
    ps.map_values(|p: ParamView| (p.name, param_tree(p)))
}

/// What the arguments of a tool have to be.
pub open spec fn input_tree(t: ToolView) -> JsonView {
    JsonView::Object(
        seq![
            ("type"@, JsonView::Text("object"@)),
            ("properties"@, JsonView::Object(param_members(t.params))),
            ("required"@, JsonView::List(json::text_trees(t.required))),
        ],
    )
}

/// A tool in JSON.
pub open spec fn schema_tree(t: ToolView) -> JsonView {
    JsonView::Object(
        seq![
            ("name"@, JsonView::Text(t.name)),
            ("description"@, JsonView::Text(t.description)),
            ("inputSchema"@, input_tree(t)),
        ],
    )
}

/// Tools in JSON.
pub open spec fn schema_trees(ts: Seq<ToolView>) -> Seq<JsonView> {
    ts.map_values(|t: ToolView| schema_tree(t))
}

fn param_json(p: &Param) -> (r: Json)
    ensures
        r@ == param_tree(p@),
{
    let mut v: Vec<(String, Json)> = Vec::new();
    assert(json::members(v@) =~= seq![]);
    push_member(&mut v, "type", Json::Text(p.kind.clone()));
    push_member(&mut v, "description", Json::Text(p.description.clone()));
    let r = Json::Object(v);
    assert(json::members(v@) =~= param_tree(p@)->Object_0);
    r
}

fn params_json(ps: &Vec<Param>) -> (r: Json)
    ensures
        r@ == JsonView::Object(param_members(mcp::param_views(ps@))),
{
    let ghost want = param_members(mcp::param_views(ps@));
    let mut v: Vec<(String, Json)> = Vec::new();
    let mut i: usize = 0;
    assert(json::members(v@) =~= want.take(0));
    while i < ps.len()
        invariant
            i <= ps@.len(),
            want == param_members(mcp::param_views(ps@)),
            json::members(v@) == want.take(i as int),
        decreases ps.len() - i,
    {
        push_member(&mut v, ps[i].name.as_str(), param_json(&ps[i]));
        proof {
            assert(mcp::param_views(ps@)[i as int] == ps@[i as int]@);
            assert(want.take(i + 1) =~= want.take(i as int).push(want[i as int]));
        }
        i = i + 1;
    }
    assert(want.take(want.len() as int) =~= want);
    Json::Object(v)
}

/// A tool in JSON.
pub fn tool_schema(t: &Tool) -> (r: Json)
    ensures
        r@ == schema_tree(t@),
{
    let mut input: Vec<(String, Json)> = Vec::new();
    assert(json::members(input@) =~= seq![]);
    push_member(&mut input, "type", Json::Text("object".to_owned()));
    push_member(&mut input, "properties", params_json(&t.params));
    push_member(&mut input, "required", text_list(&t.required));
    assert(json::members(input@) =~= input_tree(t@)->Object_0);
    let mut v: Vec<(String, Json)> = Vec::new();
    assert(json::members(v@) =~= seq![]);
    push_member(&mut v, "name", Json::Text(t.name.clone()));
    push_member(&mut v, "description", Json::Text(t.description.clone()));
    push_member(&mut v, "inputSchema", Json::Object(input));
    let r = Json::Object(v);
    assert(json::members(v@) =~= schema_tree(t@)->Object_0);
    r
}

fn schemas(ts: &Vec<Tool>) -> (r: Json)
    ensures
        r@ == JsonView::List(schema_trees(mcp::tool_views(ts@))),
{
    let ghost want = schema_trees(mcp::tool_views(ts@));
    let mut list: Vec<Json> = Vec::new();
    let mut i: usize = 0;
    assert(json::trees(list@) =~= want.take(0));
    while i < ts.len()
        invariant
            i <= ts@.len(),
            want == schema_trees(mcp::tool_views(ts@)),
            json::trees(list@) == want.take(i as int),
        decreases ts.len() - i,
    {
        let ghost before = list@;
        list.push(tool_schema(&ts[i]));
        proof {
            assert(list@.drop_last() =~= before);
            assert(mcp::tool_views(ts@)[i as int] == ts@[i as int]@);
            assert(json::trees(list@) =~= want.take(i as int).push(want[i as int]));
            assert(want.take(i + 1) =~= want.take(i as int).push(want[i as int]));
        }
        i = i + 1;
    }
    assert(want.take(want.len() as int) =~= want);
    Json::List(list)
}

// ---------------------------------------------------------------------------
// Replies
// ---------------------------------------------------------------------------

/// An object with one member.
pub open spec fn single(key: Seq<char>, value: JsonView) -> JsonView {
    JsonView::Object(seq![(key, value)])
}

fn single_json(key: &str, value: Json) -> (r: Json)
    ensures
        r@ == single(key@, value@),
{
    let mut v: Vec<(String, Json)> = Vec::new();
    assert(json::members(v@) =~= seq![]);
    push_member(&mut v, key, value);
    let r = Json::Object(v);
    assert(json::members(v@) =~= single(key@, value@)->Object_0);
    r
}

fn empty_json() -> (r: Json)
    ensures
        r@ == JsonView::Object(seq![]),
{
    let v: Vec<(String, Json)> = Vec::new();
    assert(json::members(v@) =~= seq![]);
    Json::Object(v)
}

/// What a server of a version says of itself.
pub open spec fn welcome_tree(version: Seq<char>) -> JsonView {
    JsonView::Object(
        seq![
            ("protocolVersion"@, JsonView::Text(PROTOCOL_VERSION@)),
            ("capabilities"@, single("tools"@, JsonView::Object(seq![]))),
            (
                "serverInfo"@,
                JsonView::Object(
                    seq![
                        ("name"@, JsonView::Text(SERVER_NAME@)),
                        ("version"@, JsonView::Text(version)),
                    ],
                ),
            ),
            ("instructions"@, JsonView::Text(INSTRUCTIONS@)),
        ],
    )
}

fn welcome_json(version: &str) -> (r: Json)
    ensures
        r@ == welcome_tree(version@),
{
    let mut info: Vec<(String, Json)> = Vec::new();
    assert(json::members(info@) =~= seq![]);
    push_member(&mut info, "name", Json::Text(SERVER_NAME.to_owned()));
    push_member(&mut info, "version", Json::Text(version.to_owned()));
    assert(json::members(info@) =~= seq![
        ("name"@, JsonView::Text(SERVER_NAME@)),
        ("version"@, JsonView::Text(version@)),
    ]);
    let mut v: Vec<(String, Json)> = Vec::new();
    assert(json::members(v@) =~= seq![]);
    push_member(&mut v, "protocolVersion", Json::Text(PROTOCOL_VERSION.to_owned()));
    push_member(&mut v, "capabilities", single_json("tools", empty_json()));
    push_member(&mut v, "serverInfo", Json::Object(info));
    push_member(&mut v, "instructions", Json::Text(INSTRUCTIONS.to_owned()));
    let r = Json::Object(v);
    assert(json::members(v@) =~= welcome_tree(version@)->Object_0);
    r
}

/// The text of a tool.
pub open spec fn text_tree(t: Seq<char>) -> JsonView {
    single(
        "content"@,
        JsonView::List(
            seq![
                JsonView::Object(
                    seq![("type"@, JsonView::Text("text"@)), ("text"@, JsonView::Text(t))],
                ),
            ],
        ),
    )
}

fn text_json(t: &str) -> (r: Json)
    ensures
        r@ == text_tree(t@),
{
    let mut part: Vec<(String, Json)> = Vec::new();
    assert(json::members(part@) =~= seq![]);
    push_member(&mut part, "type", Json::Text("text".to_owned()));
    push_member(&mut part, "text", Json::Text(t.to_owned()));
    let ghost want = seq![("type"@, JsonView::Text("text"@)), ("text"@, JsonView::Text(t@))];
    assert(json::members(part@) =~= want);
    let mut list: Vec<Json> = Vec::new();
    list.push(Json::Object(part));
    proof {
        assert(list@.drop_last() =~= seq![]);
        assert(json::tree(list@.last()) == JsonView::Object(want));
        assert(json::trees(list@.drop_last()) =~= seq![]);
        assert(json::trees(list@) =~= seq![JsonView::Object(want)]);
    }
    single_json("content", Json::List(list))
}

/// An error.
pub open spec fn error_tree(code: int, message: Seq<char>) -> JsonView {
    JsonView::Object(
        seq![
            ("code"@, json::integer_tree(code as i64)),
            ("message"@, JsonView::Text(message)),
        ],
    )
}

fn error_json(code: i32, message: &str) -> (r: Json)
    ensures
        r@ == error_tree(code as int, message@),
{
    let mut v: Vec<(String, Json)> = Vec::new();
    assert(json::members(v@) =~= seq![]);
    push_member(&mut v, "code", integer(code as i64));
    push_member(&mut v, "message", Json::Text(message.to_owned()));
    let r = Json::Object(v);
    assert(json::members(v@) =~= error_tree(code as int, message@)->Object_0);
    r
}

/// The id of a request.
pub open spec fn id_tree(id: IdView) -> JsonView {
    match id {
        IdView::Number(n) => json::integer_tree(n),
        IdView::Text(t) => JsonView::Text(t),
        IdView::Null => JsonView::Null,
    }
}

fn id_json(id: &RpcId) -> (r: Json)
    ensures
        r@ == id_tree(id@),
{
    match id {
        RpcId::Number(n) => integer(*n),
        RpcId::Text(t) => Json::Text(t.clone()),
        RpcId::Null => Json::Null,
    }
}

/// What a request is answered: under `result`, or under `error`.
pub open spec fn outcome_member(o: OutcomeView, version: Seq<char>) -> (Seq<char>, JsonView) {
    match o {
        OutcomeView::Welcome => ("result"@, welcome_tree(version)),
        OutcomeView::Tools => (
            "result"@,
            single("tools"@, JsonView::List(schema_trees(mcp::tool_list()))),
        ),
        OutcomeView::Text(t) => ("result"@, text_tree(t)),
        OutcomeView::Empty => ("result"@, JsonView::Object(seq![])),
        OutcomeView::Error(c, t) => ("error"@, error_tree(c, t)),
    }
}

/// A reply of a server of a version in JSON.
pub open spec fn response_tree(id: IdView, o: OutcomeView, version: Seq<char>) -> JsonView {
    JsonView::Object(
        seq![
            ("jsonrpc"@, JsonView::Text("2.0"@)),
            ("id"@, id_tree(id)),
            outcome_member(o, version),
        ],
    )
}

/// A reply of a server of a version in JSON.
pub fn response_json(r: &RpcResponse, version: &str) -> (j: Json)
    ensures
        j@ == response_tree(r.id@, r.outcome@, version@),
{
    let (key, value) = match &r.outcome {
        RpcOutcome::Welcome => ("result", welcome_json(version)),
        RpcOutcome::Tools => ("result", single_json("tools", schemas(&all_tools()))),
        RpcOutcome::Text(t) => ("result", text_json(t.as_str())),
        RpcOutcome::Empty => ("result", empty_json()),
        RpcOutcome::Error(c, t) => ("error", error_json(*c, t.as_str())),
    };
    let mut v: Vec<(String, Json)> = Vec::new();
    assert(json::members(v@) =~= seq![]);
    push_member(&mut v, "jsonrpc", Json::Text("2.0".to_owned()));
    push_member(&mut v, "id", id_json(&r.id));
    push_member(&mut v, key, value);
    let j = Json::Object(v);
    assert(json::members(v@) =~= response_tree(r.id@, r.outcome@, version@)->Object_0);
    j
}

/// Every reply says under its request's id that it is one, and it has a result or an
/// error, not both.
pub proof fn replies_are_results_or_errors(id: IdView, o: OutcomeView, version: Seq<char>)
    ensures
        ({
            let t = response_tree(id, o, version);
            json::member(t, "id"@) == Some(id_tree(id)) && (json::member(t, "result"@) is Some
                <==> !(o is Error)) && (json::member(t, "error"@) is Some <==> o is Error)
        }),
{
    reveal_strlit("jsonrpc");
    reveal_strlit("id");
    reveal_strlit("result");
    reveal_strlit("error");
    assert("jsonrpc"@.len() == 7 && "id"@.len() == 2 && "result"@.len() == 6 && "error"@.len()
        == 5);
    let ms = response_tree(id, o, version)->Object_0;
    reveal_with_fuel(json::found, 4);
    assert(ms.drop_first()[0] == ms[1]);
    assert(ms.drop_first().drop_first()[0] == ms[2]);
    assert(ms.drop_first().drop_first().drop_first().len() == 0);
}

/// A tool is written with its name, and each of its arguments with its type; those that have
/// to be given are named.
pub proof fn tools_are_written_with_their_arguments(t: ToolView, i: int)
    ensures
        json::member(schema_tree(t), "name"@) == Some(JsonView::Text(t.name)),
        param_members(t.params).len() == t.params.len(),
        0 <= i < t.params.len() ==> param_members(t.params)[i].0 == t.params[i].name && json::member(
            param_members(t.params)[i].1,
            "type"@,
        ) == Some(JsonView::Text(t.params[i].kind)),
        json::text_trees(t.required).len() == t.required.len(),
        0 <= i < t.required.len() ==> json::text_trees(t.required)[i] == JsonView::Text(
            t.required[i],
        ),
{
    reveal_with_fuel(json::found, 3);
}

/// The text of a tool is what its reply carries.
pub proof fn the_text_of_a_tool_is_carried(t: Seq<char>, id: IdView, version: Seq<char>)
    ensures
        outcome_member(OutcomeView::Text(t), version).0 == "result"@,
        outcome_member(OutcomeView::Text(t), version).1 == text_tree(t),
        json::member(text_tree(t), "content"@) matches Some(JsonView::List(items)) && items.len()
            == 1 && json::member(items[0], "text"@) == Some(JsonView::Text(t)),
{
    reveal_with_fuel(json::found, 3);
    reveal_strlit("type");
    reveal_strlit("text");
    assert("type"@[1] == 'y' && "text"@[1] == 'e');
    let o = JsonView::Object(
        seq![("type"@, JsonView::Text("text"@)), ("text"@, JsonView::Text(t))],
    );
    let ms = seq![("type"@, JsonView::Text("text"@)), ("text"@, JsonView::Text(t))];
    assert(ms.drop_first()[0] == ms[1]);
    assert(json::member(o, "text"@) == Some(JsonView::Text(t)));
}

/// A reply is told under the id of its request: a number as that number, a text as that text.
pub proof fn ids_are_given_back(n: i64, t: Seq<char>, o: OutcomeView, version: Seq<char>)
    ensures
        json::member(response_tree(IdView::Text(t), o, version), "id"@) == Some(JsonView::Text(t)),
        json::member(response_tree(IdView::Number(n), o, version), "id"@) matches Some(
            JsonView::Number(w, s, shown),
        ) && s == Some(n) && (n >= 0 ==> w == Some(n as u64)) && (n >= 0 ==> pieces::number(shown)
            == Some(n as nat)),
        json::member(response_tree(IdView::Null, o, version), "id"@) == Some(JsonView::Null),
{
    reveal_with_fuel(json::found, 4);
    reveal_strlit("jsonrpc");
    reveal_strlit("id");
    assert("jsonrpc"@.len() != "id"@.len());
    pieces::whole_numbers_are_written(n as int);
    let a = response_tree(IdView::Text(t), o, version)->Object_0;
    let b = response_tree(IdView::Number(n), o, version)->Object_0;
    let c = response_tree(IdView::Null, o, version)->Object_0;
    assert(a.drop_first()[0] == a[1]);
    assert(b.drop_first()[0] == b[1]);
    assert(c.drop_first()[0] == c[1]);
}

} // verus!
