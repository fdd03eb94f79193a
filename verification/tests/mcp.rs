use fuide::agent::encode::base64;
use fuide::agent::mcp::{dispatch, negotiate, parse_call, CallArgs, Dispatch, Method, PROTOCOL};
use fuide::agent::Command;

#[test]
fn defaults_and_clamps() {
    assert_eq!(
        parse_call("wait", CallArgs::default()).unwrap(),
        Command::Wait { ms: 500 }
    );
    assert_eq!(
        parse_call("wait", CallArgs { ms: Some(99999), ..CallArgs::default() }).unwrap(),
        Command::Wait { ms: 10_000 }
    );
    assert_eq!(
        parse_call(
            "key",
            CallArgs { key: Some("cmd+3".into()), repeat: Some(0), ..CallArgs::default() }
        )
        .unwrap(),
        Command::Key { combo: "cmd+3".into(), repeat: 1 }
    );
    assert_eq!(parse_call("observe", CallArgs::default()).unwrap(), Command::Observe);
}

#[test]
fn tool_call_arguments_become_commands() {
    assert_eq!(
        parse_call(
            "click",
            CallArgs { label: Some("REFRESH".into()), nth: Some(2), ..CallArgs::default() }
        ),
        Ok(Command::Click { label: "REFRESH".into(), nth: 2 })
    );
    assert_eq!(
        parse_call("click", CallArgs::default()),
        Err("`label` is required".to_string())
    );
    assert_eq!(
        parse_call("click", CallArgs { label: Some(String::new()), ..CallArgs::default() }),
        Err("`label` is required".to_string())
    );
    assert!(parse_call("nope", CallArgs::default()).unwrap_err().contains("unknown tool"));
    assert_eq!(parse_call("type", CallArgs::default()), Err("`text` is required".to_string()));
    assert_eq!(parse_call("key", CallArgs::default()), Err("`key` is required".to_string()));
    assert_eq!(
        parse_call(
            "type",
            CallArgs { text: Some("rip".into()), label: Some(String::new()), ..CallArgs::default() }
        ),
        Ok(Command::Type { text: "rip".into(), label: None, submit: false })
    );
    assert_eq!(
        parse_call("key", CallArgs { key: Some("down".into()), repeat: Some(99), ..CallArgs::default() }),
        Ok(Command::Key { combo: "down".into(), repeat: 50 })
    );
    assert_eq!(
        parse_call("screenshot", CallArgs { path: Some("/tmp/x.png".into()), ..CallArgs::default() }),
        Ok(Command::Screenshot { path: Some("/tmp/x.png".into()) })
    );
    assert_eq!(
        parse_call("click", CallArgs { label: Some("GO".into()), nth: Some(0), ..CallArgs::default() }),
        Ok(Command::Click { label: "GO".into(), nth: 1 })
    );
}

#[test]
fn initialize_negotiates_version() {
    assert_eq!(negotiate(Some("2025-03-26")), "2025-03-26");
    assert_eq!(negotiate(Some("2024-11-05")), "2024-11-05");
    assert_eq!(negotiate(Some("1999-01-01")), PROTOCOL);
    assert_eq!(negotiate(None), PROTOCOL);
    assert_eq!(PROTOCOL, "2025-06-18");
}

#[test]
fn notifications_are_not_answered() {
    assert_eq!(dispatch(false, true, Some("notifications/initialized"), false), Dispatch::Nothing);
    assert_eq!(dispatch(false, true, None, true), Dispatch::Nothing);
    assert_eq!(dispatch(true, false, None, false), Dispatch::Nothing);
    assert_eq!(
        dispatch(false, true, Some("tools/list"), false),
        Dispatch::Run { method: Method::ToolsList, respond: false }
    );
}

#[test]
fn unknown_methods_and_bad_json_are_refused() {
    assert_eq!(
        dispatch(false, true, Some("resources/list"), true),
        Dispatch::NotFound("method not found: resources/list".to_string())
    );
    assert_eq!(dispatch(false, false, None, false), Dispatch::ParseError);
}

#[test]
fn known_methods_are_answered() {
    let run = |method| Dispatch::Run { method, respond: true };
    assert_eq!(dispatch(false, true, Some("initialize"), true), run(Method::Initialize));
    assert_eq!(dispatch(false, true, Some("ping"), true), run(Method::Ping));
    assert_eq!(dispatch(false, true, Some("tools/list"), true), run(Method::ToolsList));
    assert_eq!(dispatch(false, true, Some("tools/call"), true), run(Method::ToolsCall));
}

#[test]
fn image_payload_is_base64() {
    assert_eq!(base64(b"\x89PNG"), "iVBORw==");
}

// ------------------------------------------------------------------------------- whole lines

use fuide::agent::bridge::{forward_failed, line_forwards};
use fuide::agent::mcp::{call_answer, call_result, read_request, route_line, route_request, Request, Route};
use fuide::agent::Reply;
use serde_json::Value;

/// One request line through the server, with `call` running a tool call.
fn handle(line: &str, call: &mut dyn FnMut(Command) -> Reply) -> Option<Value> {
    let text = match route_line(line, "test", "hi", "0.1.0") {
        Route::Silent => None,
        Route::Answer(t) => Some(t),
        Route::Call { id, cmd } => call_answer(id.as_deref(), &call(cmd)),
    };
    text.map(|s| serde_json::from_str(&s).unwrap())
}

fn no_call(_: Command) -> Reply {
    panic!("unexpected tool call")
}

#[test]
fn initialize_negotiates_version_and_lists_tools() {
    let r = handle(
        r#"{"jsonrpc":"2.0","id":1,"method":"initialize","params":{"protocolVersion":"2025-03-26"}}"#,
        &mut no_call,
    )
    .unwrap();
    assert_eq!(r["id"], 1);
    assert_eq!(r["result"]["protocolVersion"], "2025-03-26");
    assert_eq!(r["result"]["serverInfo"]["name"], "test");
    let r = handle(
        r#"{"jsonrpc":"2.0","id":"x","method":"initialize","params":{"protocolVersion":"1999-01-01"}}"#,
        &mut no_call,
    )
    .unwrap();
    assert_eq!(r["result"]["protocolVersion"], PROTOCOL);
    let r = handle(r#"{"jsonrpc":"2.0","id":2,"method":"tools/list"}"#, &mut no_call).unwrap();
    let names: Vec<&str> = r["result"]["tools"]
        .as_array()
        .unwrap()
        .iter()
        .map(|t| t["name"].as_str().unwrap())
        .collect();
    assert_eq!(names, ["observe", "screenshot", "click", "type", "key", "wait"]);
}

#[test]
fn notifications_and_responses_are_silent() {
    assert!(handle(r#"{"jsonrpc":"2.0","method":"notifications/initialized"}"#, &mut no_call).is_none());
    assert!(handle(r#"{"jsonrpc":"2.0","id":9,"result":{}}"#, &mut no_call).is_none());
    assert!(handle("   ", &mut no_call).is_none());
}

#[test]
fn unknown_method_and_bad_json_are_errors() {
    let r = handle(r#"{"jsonrpc":"2.0","id":3,"method":"resources/list"}"#, &mut no_call).unwrap();
    assert_eq!(r["error"]["code"], -32601);
    assert_eq!(r["id"], 3);
    assert_eq!(r["error"]["message"], "method not found: resources/list");
    let r = handle("{not json", &mut no_call).unwrap();
    assert_eq!(r["error"]["code"], -32700);
    assert_eq!(r["id"], Value::Null);
    assert!(r["error"]["message"].as_str().unwrap().starts_with("parse error: "));
}

#[test]
fn tool_calls_are_parsed_and_answered() {
    let mut seen = Vec::new();
    let mut call = |c: Command| {
        seen.push(c);
        Reply::Text("ok".into())
    };
    let r = handle(
        r#"{"jsonrpc":"2.0","id":4,"method":"tools/call","params":{"name":"click","arguments":{"label":"REFRESH","nth":2}}}"#,
        &mut call,
    )
    .unwrap();
    assert_eq!(r["result"]["content"][0]["text"], "ok");
    assert_eq!(seen, [Command::Click { label: "REFRESH".into(), nth: 2 }]);
    // missing argument → tool error, not a protocol error
    let r = handle(
        r#"{"jsonrpc":"2.0","id":5,"method":"tools/call","params":{"name":"click","arguments":{}}}"#,
        &mut no_call,
    )
    .unwrap();
    assert_eq!(r["result"]["isError"], true);
    let r = handle(
        r#"{"jsonrpc":"2.0","id":6,"method":"tools/call","params":{"name":"nope"}}"#,
        &mut no_call,
    )
    .unwrap();
    assert!(r["result"]["content"][0]["text"].as_str().unwrap().contains("unknown tool"));
}

#[test]
fn image_replies_carry_base64_png() {
    let v: Value = serde_json::from_str(&call_result(&Reply::Image {
        png: b"\x89PNG".to_vec(),
        text: "shot".into(),
    }))
    .unwrap();
    assert_eq!(v["content"][0]["type"], "image");
    assert_eq!(v["content"][0]["mimeType"], "image/png");
    assert_eq!(v["content"][0]["data"], "iVBORw==");
    assert_eq!(v["content"][1]["text"], "shot");
}

#[test]
fn a_notified_call_runs_but_is_not_answered() {
    let mut ran = 0;
    let mut call = |_: Command| {
        ran += 1;
        Reply::Text("ok".into())
    };
    let r = handle(r#"{"jsonrpc":"2.0","method":"tools/call","params":{"name":"observe"}}"#, &mut call);
    assert!(r.is_none());
    assert_eq!(ran, 1);
}

#[test]
fn ping_answers_an_empty_object_and_texts_are_escaped() {
    let r = handle(r#"  {"jsonrpc":"2.0","id":"p","method":"ping"}  "#, &mut no_call).unwrap();
    assert_eq!(r["jsonrpc"], "2.0");
    assert_eq!(r["id"], "p");
    assert!(r["result"].as_object().unwrap().is_empty());
    let line = route_line(r#"{"jsonrpc":"2.0","id":1,"method":"initialize"}"#, "a \"q\"", "line\nbreak", "9");
    let Route::Answer(text) = line else { panic!("initialize is answered") };
    let r: Value = serde_json::from_str(&text).unwrap();
    assert_eq!(r["result"]["serverInfo"]["name"], "a \"q\"");
    assert_eq!(r["result"]["serverInfo"]["version"], "9");
    assert_eq!(r["result"]["instructions"], "line\nbreak");
    assert_eq!(r["result"]["capabilities"]["tools"]["listChanged"], false);
    assert_eq!(r["result"]["protocolVersion"], PROTOCOL);
}

#[test]
fn tool_list_advertises_the_clamps() {
    let text: String = fuide::agent::tools::tools_text(&fuide::agent::tools::builtin_tools())
        .into_iter()
        .collect();
    let v: Value = serde_json::from_str(&text).unwrap();
    let key = &v[4]["inputSchema"];
    assert_eq!(v[4]["name"], "key");
    assert_eq!(key["properties"]["repeat"]["minimum"], 1);
    assert_eq!(key["properties"]["repeat"]["maximum"], 50);
    assert_eq!(key["required"].as_array().unwrap().len(), 1);
    assert_eq!(key["required"][0], "key");
    assert_eq!(key["additionalProperties"], false);
    assert_eq!(v[1]["inputSchema"]["properties"]["scale"]["minimum"], 0.1);
    assert_eq!(v[1]["inputSchema"]["properties"]["scale"]["type"], "number");
    assert_eq!(v[3]["inputSchema"]["properties"]["submit"]["default"], false);
    assert_eq!(v[5]["inputSchema"]["properties"]["ms"]["default"], 500);
    assert!(v[5]["inputSchema"].get("required").is_none());
}

#[test]
fn the_bridge_forwards_calls_and_answers_failures() {
    assert!(line_forwards(r#"{"jsonrpc":"2.0","id":7,"method":"tools/call"}"#));
    assert!(!line_forwards(r#"{"jsonrpc":"2.0","id":7,"method":"tools/list"}"#));
    assert!(!line_forwards("{oops"));
    let r: Value = serde_json::from_str(&forward_failed(
        r#"{"jsonrpc":"2.0","id":7,"method":"tools/call"}"#,
        "app not running".into(),
    ))
    .unwrap();
    assert_eq!(r["id"], 7);
    assert_eq!(r["result"]["isError"], true);
    assert_eq!(r["result"]["content"][0]["text"], "app not running");
}

#[test]
fn a_request_that_was_read_is_answered_from_its_fields() {
    let q = Request {
        blank: false,
        error: None,
        method: Some("tools/call".into()),
        id: Some("\"k\"".into()),
        protocol: None,
        tool: Some("wait".into()),
        args: CallArgs { ms: Some(0), ..CallArgs::default() },
    };
    assert_eq!(
        route_request(&q, "s", "i", "1"),
        Route::Call { id: Some("\"k\"".into()), cmd: Command::Wait { ms: 1 } }
    );
    let bad = Request { error: Some("oops".into()), ..q };
    let Route::Answer(text) = route_request(&bad, "s", "i", "1") else { panic!("not JSON is answered") };
    let r: Value = serde_json::from_str(&text).unwrap();
    assert_eq!(r["error"]["message"], "parse error: oops");
    let read = read_request(r#"  {"id":3,"method":"tools/call","params":{"name":"key","arguments":{"key":"down","repeat":7,"submit":true}}} "#);
    assert_eq!(read.method.as_deref(), Some("tools/call"));
    assert_eq!(read.id.as_deref(), Some("3"));
    assert_eq!(read.tool.as_deref(), Some("key"));
    assert_eq!(read.args.key.as_deref(), Some("down"));
    assert_eq!(read.args.repeat, Some(7));
    assert_eq!(read.args.submit, Some(true));
    assert!(!read.blank && read.error.is_none());
}

/// `serde_json` writes the same text for the value the text stands for: same key order, same
/// escapes.
fn as_serde_writes(text: &str) -> bool {
    serde_json::from_str::<Value>(text).unwrap().to_string() == text
}

#[test]
fn replies_are_written_as_serde_json_writes_them() {
    let init = route_line(
        r#"{"jsonrpc":"2.0","id":1,"method":"initialize","params":{"protocolVersion":"2025-03-26"}}"#,
        "a \"q\"\t\u{1}é",
        "line\nbreak\\",
        "0.1.0",
    );
    let Route::Answer(text) = init else { panic!("initialize is answered") };
    assert!(as_serde_writes(&text), "{text}");
    let Route::Answer(text) = route_line(r#"{"jsonrpc":"2.0","id":2,"method":"tools/list"}"#, "s", "i", "1") else {
        panic!("tools/list is answered")
    };
    assert!(as_serde_writes(&text), "{text}");
    let Route::Answer(text) = route_line(r#"{"id":3,"method":"nope"}"#, "s", "i", "1") else {
        panic!("an unknown method is answered")
    };
    assert!(as_serde_writes(&text), "{text}");
    assert_eq!(text, r#"{"error":{"code":-32601,"message":"method not found: nope"},"id":3,"jsonrpc":"2.0"}"#);
    let img = call_result(&Reply::Image { png: b"\x89PNG".to_vec(), text: "shot".into() });
    assert!(as_serde_writes(&img), "{img}");
    let err = call_result(&Reply::Error("bad \"x\"".into()));
    assert!(as_serde_writes(&err), "{err}");
    assert_eq!(err, r#"{"content":[{"text":"bad \"x\"","type":"text"}],"isError":true}"#);
}

#[test]
fn response_and_error_lines() {
    assert_eq!(
        fuide::agent::mcp::response("7", "{}"),
        r#"{"id":7,"jsonrpc":"2.0","result":{}}"#
    );
    assert_eq!(
        fuide::agent::mcp::error("null", -32700, "parse error: x"),
        r#"{"error":{"code":-32700,"message":"parse error: x"},"id":null,"jsonrpc":"2.0"}"#
    );
    assert_eq!(
        fuide::agent::mcp::error("1", 5, "y"),
        r#"{"error":{"code":5,"message":"y"},"id":1,"jsonrpc":"2.0"}"#
    );
    assert!(as_serde_writes(&fuide::agent::mcp::error("1", i64::MIN, "m")));
}
