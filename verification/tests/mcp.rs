use sempkg::json::{read_json, Json};
use sempkg::mcp::{
    all_tools, context_fetch_limit, dispatch_tool, handle_message, query_fetch_limit,
    reranker_fetch_limit, tool_reply, Handled, RpcId, RpcOutcome, RpcRequest, ToolCall,
};
use sempkg::reranker::RerankerConfig;
use sempkg::wire::{response_json, tool_schema};

fn request(id: Option<RpcId>, method: &str, params: &str) -> Result<RpcRequest, String> {
    Ok(RpcRequest {
        id,
        method: method.to_string(),
        params: read_json(params).unwrap(),
    })
}

fn reply(message: &Result<RpcRequest, String>) -> Json {
    match handle_message(message) {
        Handled::Reply(r) => response_json(&r, "0.1.0"),
        _ => panic!("a reply was expected"),
    }
}

#[test]
fn tools_that_are_offered_can_be_called() {
    let tools = all_tools();
    assert!(tools.len() >= 12);
    for t in &tools {
        let call = dispatch_tool(&t.name, &read_json("{}").unwrap());
        assert!(!matches!(call, ToolCall::Unknown(_)), "{}", t.name);
        for r in &t.required {
            assert!(t.params.iter().any(|p| &p.name == r), "{} {r}", t.name);
        }
        let schema = tool_schema(t);
        assert_eq!(schema.text_member("name"), Some(t.name.as_str()));
        assert!(schema.get("inputSchema").is_some());
    }
}

#[test]
fn arguments_have_defaults() {
    let args = read_json(r#"{"package":"p","query":"q","limit":3}"#).unwrap();
    match dispatch_tool("search_symbols", &args) {
        ToolCall::SearchSymbols { package, query, kind, limit } => {
            assert_eq!((package.as_str(), query.as_str(), kind, limit), ("p", "q", None, 3));
        }
        _ => panic!("a search"),
    }
    match dispatch_tool("get_impact", &read_json("{}").unwrap()) {
        ToolCall::GetImpact { package, depth, .. } => {
            assert_eq!((package.as_str(), depth), ("", 3));
        }
        _ => panic!("an impact"),
    }
    match dispatch_tool("query", &read_json(r#"{"query":"x"}"#).unwrap()) {
        ToolCall::Query { query, limit } => assert_eq!((query.as_str(), limit), ("x", 10)),
        _ => panic!("a query"),
    }
    assert!(matches!(
        dispatch_tool("nope", &Json::Null),
        ToolCall::Unknown(n) if n == "Unknown tool: nope"
    ));
}

#[test]
fn requests_are_answered() {
    let r = reply(&request(Some(RpcId::Number(7)), "ping", "{}"));
    assert_eq!(r.text_member("jsonrpc"), Some("2.0"));
    assert_eq!(r.get("id").unwrap().as_u64(), Some(7));
    assert!(r.get("result").is_some());
    assert!(r.get("error").is_none());

    let r = reply(&request(Some(RpcId::Text("x".to_string())), "initialize", "{}"));
    assert_eq!(r.text_member("id"), Some("x"));
    let result = r.get("result").unwrap();
    assert_eq!(result.text_member("protocolVersion"), Some("2024-11-05"));
    assert_eq!(
        result.get("serverInfo").unwrap().text_member("version"),
        Some("0.1.0")
    );

    let r = reply(&request(None, "tools/list", "{}"));
    assert!(matches!(r.get("id"), Some(Json::Null)));
    assert!(r.get("result").unwrap().get("tools").is_some());
}

#[test]
fn requests_that_cannot_be_served_are_refused() {
    let r = reply(&request(Some(RpcId::Number(1)), "nope", "{}"));
    let e = r.get("error").unwrap();
    assert_eq!(e.text_member("message"), Some("Method not found: nope"));
    assert!(r.get("result").is_none());
    match handle_message(&Err("bad".to_string())) {
        Handled::Reply(r) => {
            assert!(matches!(r.id, RpcId::Null));
            match r.outcome {
                RpcOutcome::Error(code, m) => {
                    assert_eq!((code, m.as_str()), (-32700, "Parse error: bad"));
                }
                _ => panic!("an error"),
            }
        }
        _ => panic!("a reply"),
    }
}

#[test]
fn calls_and_notifications() {
    assert!(matches!(
        handle_message(&request(None, "notifications/initialized", "{}")),
        Handled::Silent
    ));
    let call = request(
        Some(RpcId::Number(2)),
        "tools/call",
        r#"{"name":"read_code","arguments":{"package":"p","file":"f","line":12}}"#,
    );
    match handle_message(&call) {
        Handled::Call(id, ToolCall::ReadCode { package, file, line }) => {
            assert_eq!((package.as_str(), file.as_str(), line), ("p", "f", 12));
            let j = response_json(&tool_reply(id, "text".to_string()), "0.1.0");
            match j.get("result").unwrap().get("content").unwrap() {
                Json::List(v) => assert_eq!(v[0].text_member("text"), Some("text")),
                _ => panic!("a list"),
            }
        }
        _ => panic!("a call"),
    }
}

#[test]
fn a_reranker_says_how_much_is_fetched() {
    let cfg = Some(RerankerConfig { enabled: true, top_k: 20, ..Default::default() });
    assert_eq!(reranker_fetch_limit(&cfg, true, 5), 20);
    assert_eq!(reranker_fetch_limit(&cfg, true, 50), 20);
    assert_eq!(reranker_fetch_limit(&cfg, false, 5), 5);
    assert_eq!(reranker_fetch_limit(&None, true, 5), 5);
    assert_eq!(context_fetch_limit(&None, false, 5), 10);
    assert_eq!(context_fetch_limit(&cfg, true, 5), 20);
    assert_eq!(query_fetch_limit(&None, false, 5), 20);
    assert_eq!(query_fetch_limit(&None, false, 30), 30);
}
