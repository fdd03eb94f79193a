//! MCP (Model Context Protocol) server side: which protocol revision to answer with, what a
//! request line asks for, how a `tools/call` turns into a [`Command`], and the response line
//! for each request (JSON-RPC 2.0, one message per line). Reading JSON and writing JSON
//! strings is `serde_json`'s part (see [`super::wire`]).

use vstd::prelude::*;

use super::encode::{base64, base64_spec};
use super::tools::{builtin_tools, builtin_tools_spec, tools_json, tools_text};
use super::wire::{
    bool_at, json_bool_at, json_error, json_quoted, json_str_at, json_text_at, json_u64_at,
    member, member_quoted, member_text, obj, arr, arr_text, obj_text, parse_error, rpc_error,
    rpc_error_text, rpc_result, rpc_result_text, str_at, text_at, u64_at,
};
use super::{opt_view, Command, CommandView, Reply, ReplyView};
use crate::fmt::{decimal, push_decimal};
use crate::text::{chars_of, push_str, seq_eq, slice_vec, string_of, trim, trim_bounds, views};

verus! {

/// Newest protocol revision this server knows; older clients get their own version echoed
/// back.
pub const PROTOCOL: &'static str = "2025-06-18";

/// The revisions this server speaks, newest first.
pub open spec fn known_revisions() -> Seq<Seq<char>> {
    seq!["2025-06-18"@, "2025-03-26"@, "2024-11-05"@]
}

/// The revision to answer `initialize` with: the client's own when it is one this server
/// speaks, else the newest.
pub open spec fn negotiate_spec(requested: Option<Seq<char>>) -> Seq<char> {
    match requested {
        Some(v) => if known_revisions().contains(v) { v } else { "2025-06-18"@ },
        None => "2025-06-18"@,
    }
}

/// `negotiate_spec(requested)`.
pub fn negotiate(requested: Option<&str>) -> (r: String)
    ensures
        r@ == negotiate_spec(match requested { Some(s) => Some(s@), None => None }),
{
    proof {
        reveal_strlit("2025-06-18");
        reveal_strlit("2025-03-26");
        reveal_strlit("2024-11-05");
    }
    let newest = chars_of("2025-06-18");
    let known = [chars_of("2025-06-18"), chars_of("2025-03-26"), chars_of("2024-11-05")];
    if let Some(v) = requested {
        let vv = chars_of(v);
        let mut j: usize = 0;
        while j < 3
            invariant
                j <= 3,
                requested == Some(v),
                vv@ == v@,
                forall|k: int| 0 <= k < 3 ==> #[trigger] known@[k]@ == known_revisions()[k],
                forall|k: int| 0 <= k < j ==> known_revisions()[k] != v@,
            decreases 3 - j,
        {
            if seq_eq(known[j].as_slice(), vv.as_slice()) {
                assert(known_revisions()[j as int] == v@);
                assert(known_revisions().contains(v@));
                return string_of(vv.as_slice());
            }
            j = j + 1;
        }
        assert(!known_revisions().contains(v@));
        assert(negotiate_spec(Some(v@)) == "2025-06-18"@);
    }
    string_of(newest.as_slice())
}

/// What a `tools/call` reads from its `arguments`: each field is present only when the
/// argument is there with the right JSON type (a string, a non-negative integer, a bool).
#[derive(Clone, Debug, PartialEq, Default)]
pub struct CallArgs {
    pub label: Option<String>,
    pub text: Option<String>,
    pub key: Option<String>,
    pub path: Option<String>,
    pub nth: Option<u64>,
    pub repeat: Option<u64>,
    pub ms: Option<u64>,
    pub submit: Option<bool>,
}

/// [`CallArgs`] as plain values.
pub struct CallArgsView {
    pub label: Option<Seq<char>>,
    pub text: Option<Seq<char>>,
    pub key: Option<Seq<char>>,
    pub path: Option<Seq<char>>,
    pub nth: Option<u64>,
    pub repeat: Option<u64>,
    pub ms: Option<u64>,
    pub submit: Option<bool>,
}

impl View for CallArgs {
    type V = CallArgsView;

    open spec fn view(&self) -> CallArgsView {
        CallArgsView {
            label: opt_view(self.label),
            text: opt_view(self.text),
            key: opt_view(self.key),
            path: opt_view(self.path),
            nth: self.nth,
            repeat: self.repeat,
            ms: self.ms,
            submit: self.submit,
        }
    }
}

/// A present, non-empty text.
pub open spec fn filled(o: Option<Seq<char>>) -> Option<Seq<char>> {
    match o {
        Some(s) => if s.len() > 0 { Some(s) } else { None },
        None => None,
    }
}

pub open spec fn clamp(x: int, lo: int, hi: int) -> int {
    if x < lo {
        lo
    } else if x > hi {
        hi
    } else {
        x
    }
}

/// How a `tools/call` of built-in tool `name` turns into a command: defaults filled in
/// (`nth` 1, `repeat` 1, `ms` 500, `submit` false), counts clamped (`nth` at least 1,
/// `repeat` 1 to 50, `ms` 1 to 10 000), required arguments checked.
pub open spec fn parse_call_spec(name: Seq<char>, args: CallArgsView) -> Result<CommandView, Seq<char>> {
    if name == "observe"@ {
        Ok(CommandView::Observe)
    } else if name == "screenshot"@ {
        Ok(CommandView::Screenshot { path: args.path })
    } else if name == "click"@ {
        match filled(args.label) {
            None => Err("`label` is required"@),
            Some(l) => {
                let n = match args.nth { Some(n) => n as int, None => 1 };
                Ok(CommandView::Click { label: l, nth: (clamp(n, 1, u64::MAX as int) as u64 as usize) as nat })
            },
        }
    } else if name == "type"@ {
        match args.text {
            None => Err("`text` is required"@),
            Some(t) => Ok(CommandView::Type {
                text: t,
                label: filled(args.label),
                submit: match args.submit { Some(b) => b, None => false },
            }),
        }
    } else if name == "key"@ {
        match filled(args.key) {
            None => Err("`key` is required"@),
            Some(k) => {
                let n = match args.repeat { Some(n) => n as int, None => 1 };
                Ok(CommandView::Key { combo: k, repeat: clamp(n, 1, 50) as nat })
            },
        }
    } else if name == "wait"@ {
        let n = match args.ms { Some(n) => n as int, None => 500 };
        Ok(CommandView::Wait { ms: clamp(n, 1, 10_000) as nat })
    } else {
        Err("unknown tool `"@ + name + "`"@)
    }
}

fn is(name: &[char], lit: &str) -> (r: bool)
    ensures
        r == (name@ == lit@),
{
    seq_eq(name, chars_of(lit).as_slice())
}

fn filled_exec(o: Option<String>) -> (r: Option<String>)
    ensures
        opt_view(r) == filled(opt_view(o)),
{
    match o {
        Some(s) => if chars_of(s.as_str()).len() > 0 { Some(s) } else { None },
        None => None,
    }
}

/// Turn a `tools/call` of a built-in tool into a [`Command`] (see [`parse_call_spec`]).
pub fn parse_call(name: &str, args: CallArgs) -> (r: Result<Command, String>)
    ensures
        match r {
            Ok(c) => parse_call_spec(name@, args@) == Ok::<CommandView, Seq<char>>(c@),
            Err(e) => parse_call_spec(name@, args@) == Err::<CommandView, Seq<char>>(e@),
        },
{
    let ghost a = args;
    let nv = chars_of(name);
    let n = nv.as_slice();
    if is(n, "observe") {
        Ok(Command::Observe)
    } else if is(n, "screenshot") {
        Ok(Command::Screenshot { path: args.path })
    } else if is(n, "click") {
        match filled_exec(args.label) {
            None => Err(string_of(chars_of("`label` is required").as_slice())),
            Some(l) => {
                let k: u64 = match args.nth { Some(k) => k, None => 1 };
                let k: u64 = if k < 1 { 1 } else { k };
                Ok(Command::Click { label: l, nth: k as usize })
            },
        }
    } else if is(n, "type") {
        match args.text {
            None => Err(string_of(chars_of("`text` is required").as_slice())),
            Some(t) => Ok(Command::Type {
                text: t,
                label: filled_exec(args.label),
                submit: match args.submit { Some(b) => b, None => false },
            }),
        }
    } else if is(n, "key") {
        match filled_exec(args.key) {
            None => Err(string_of(chars_of("`key` is required").as_slice())),
            Some(k) => {
                let c: u64 = match args.repeat { Some(c) => c, None => 1 };
                let c: u64 = if c < 1 { 1 } else if c > 50 { 50 } else { c };
                Ok(Command::Key { combo: k, repeat: c as usize })
            },
        }
    } else if is(n, "wait") {
        let m: u64 = match args.ms { Some(m) => m, None => 500 };
        let m: u64 = if m < 1 { 1 } else if m > 10_000 { 10_000 } else { m };
        Ok(Command::Wait { ms: m })
    } else {
        let mut e: Vec<char> = Vec::new();
        push_str(&mut e, "unknown tool `");
        push_str(&mut e, name);
        push_str(&mut e, "`");
        assert(e@ =~= "unknown tool `"@ + name@ + "`"@);
        Err(string_of(e.as_slice()))
    }
}

/// The JSON-RPC methods this server answers.
#[derive(Clone, Copy, Debug, PartialEq, Eq, Structural)]
pub enum Method {
    Initialize,
    Ping,
    ToolsList,
    ToolsCall,
}

/// What to do with one request line.
#[derive(Clone, Debug, PartialEq)]
pub enum Dispatch {
    /// Send nothing (a blank line, a notification, or a response to us).
    Nothing,
    /// The line is not JSON: answer with error -32700.
    ParseError,
    /// Run the method; send its result when `respond` (not for a notification).
    Run { method: Method, respond: bool },
    /// Answer error -32601 with this message.
    NotFound(String),
}

pub enum DispatchView {
    Nothing,
    ParseError,
    Run { method: Method, respond: bool },
    NotFound(Seq<char>),
}

impl View for Dispatch {
    type V = DispatchView;

    open spec fn view(&self) -> DispatchView {
        match self {
            Dispatch::Nothing => DispatchView::Nothing,
            Dispatch::ParseError => DispatchView::ParseError,
            Dispatch::Run { method, respond } => DispatchView::Run { method: *method, respond: *respond },
            Dispatch::NotFound(s) => DispatchView::NotFound(s@),
        }
    }
}

/// The method called `m`, if this server answers it.
pub open spec fn method_named(m: Seq<char>) -> Option<Method> {
    if m == "initialize"@ {
        Some(Method::Initialize)
    } else if m == "ping"@ {
        Some(Method::Ping)
    } else if m == "tools/list"@ {
        Some(Method::ToolsList)
    } else if m == "tools/call"@ {
        Some(Method::ToolsCall)
    } else {
        None
    }
}

/// What a request line asks for: `blank` (only whitespace), `json` (it parsed as JSON),
/// `method` (its `method`, when a string) and `has_id` (it carries an `id`; a message without
/// one is a notification: a known method still runs, but nothing is sent back).
pub open spec fn dispatch_spec(blank: bool, json: bool, method: Option<Seq<char>>, has_id: bool) -> DispatchView {
    if blank {
        DispatchView::Nothing
    } else if !json {
        DispatchView::ParseError
    } else {
        match method {
            None => DispatchView::Nothing,
            Some(m) => match method_named(m) {
                Some(k) => DispatchView::Run { method: k, respond: has_id },
                None => if has_id { DispatchView::NotFound("method not found: "@ + m) } else { DispatchView::Nothing },
            },
        }
    }
}

/// `dispatch_spec(blank, json, method, has_id)`.
pub fn dispatch(blank: bool, json: bool, method: Option<&str>, has_id: bool) -> (r: Dispatch)
    ensures
        r@ == dispatch_spec(blank, json, match method { Some(s) => Some(s@), None => None }, has_id),
{
    if blank {
        return Dispatch::Nothing;
    }
    if !json {
        return Dispatch::ParseError;
    }
    let m = match method {
        None => return Dispatch::Nothing,
        Some(m) => m,
    };
    let mv = chars_of(m);
    let k = if is(mv.as_slice(), "initialize") {
        Some(Method::Initialize)
    } else if is(mv.as_slice(), "ping") {
        Some(Method::Ping)
    } else if is(mv.as_slice(), "tools/list") {
        Some(Method::ToolsList)
    } else if is(mv.as_slice(), "tools/call") {
        Some(Method::ToolsCall)
    } else {
        None
    };
    match k {
        Some(k) => Dispatch::Run { method: k, respond: has_id },
        None if !has_id => Dispatch::Nothing,
        None => {
            let mut e: Vec<char> = Vec::new();
            push_str(&mut e, "method not found: ");
            push_str(&mut e, m);
            Dispatch::NotFound(string_of(e.as_slice()))
        },
    }
}


/// A notification (a message without an `id`) is never answered, whatever its method.
pub proof fn law_notifications_are_silent(blank: bool, method: Option<Seq<char>>)
    ensures
        dispatch_spec(blank, true, method, false) matches DispatchView::Nothing
            || dispatch_spec(blank, true, method, false) matches DispatchView::Run { respond: false, .. },
{
}

/// `initialize` answers with a revision this server speaks, and with the client's own when it
/// is one of them.
pub proof fn law_negotiation_picks_a_known_revision(requested: Option<Seq<char>>)
    ensures
        known_revisions().contains(negotiate_spec(requested)),
        requested matches Some(v) ==> (known_revisions().contains(v) ==> negotiate_spec(requested) == v),
{
    assert(known_revisions()[0] == "2025-06-18"@);
}

/// An omitted count is the same as its default given explicitly: a click without `nth` is a
/// click on the first match (`nth` 1; 0 also counts as 1), a key without `repeat` is pressed
/// once, a wait without `ms` waits 500 ms. An explicit count within bounds is used as given.
pub proof fn law_omitted_counts_take_their_defaults(args: CallArgsView, k: u64)
    ensures
        parse_call_spec("click"@, CallArgsView { nth: None, ..args })
            == parse_call_spec("click"@, CallArgsView { nth: Some(1), ..args }),
        parse_call_spec("click"@, CallArgsView { nth: Some(0), ..args })
            == parse_call_spec("click"@, CallArgsView { nth: Some(1), ..args }),
        parse_call_spec("key"@, CallArgsView { repeat: None, ..args })
            == parse_call_spec("key"@, CallArgsView { repeat: Some(1), ..args }),
        parse_call_spec("wait"@, CallArgsView { ms: None, ..args })
            == parse_call_spec("wait"@, CallArgsView { ms: Some(500), ..args }),
        1 <= k <= usize::MAX ==> (parse_call_spec("click"@, CallArgsView { nth: Some(k), ..args }) matches Ok(
            CommandView::Click { nth, .. },
        ) ==> nth == k),
        1 <= k <= 50 ==> (parse_call_spec("key"@, CallArgsView { repeat: Some(k), ..args }) matches Ok(
            CommandView::Key { repeat, .. },
        ) ==> repeat == k),
        1 <= k <= 10_000 ==> (parse_call_spec("wait"@, CallArgsView { ms: Some(k), ..args }) matches Ok(
            CommandView::Wait { ms },
        ) && ms == k),
        parse_call_spec("click"@, CallArgsView { nth: Some(1), ..args }) matches Ok(CommandView::Click { nth, .. })
            ==> nth == 1,
{
    reveal_strlit("observe");
    reveal_strlit("screenshot");
    reveal_strlit("click");
    reveal_strlit("type");
    reveal_strlit("key");
    reveal_strlit("wait");
    assert("wait"@[0] != "observe"@[0] && "wait"@[0] != "screenshot"@[0] && "wait"@[0] != "click"@[0]
        && "wait"@[0] != "type"@[0] && "wait"@[0] != "key"@[0]);
}

/// A parsed call's counts are always within the advertised bounds: `repeat` 1 to 50, `ms` 1
/// to 10 000.
pub proof fn law_parsed_counts_in_bounds(name: Seq<char>, args: CallArgsView)
    ensures
        parse_call_spec(name, args) matches Ok(CommandView::Key { repeat, .. }) ==> 1 <= repeat <= 50,
        parse_call_spec(name, args) matches Ok(CommandView::Wait { ms }) ==> 1 <= ms <= 10_000,
{
}

// ------------------------------------------------------------------------------- one line

/// What to do with one request line.
#[derive(Debug, PartialEq)]
pub enum Route {
    /// Send nothing (a blank line, a notification, or a response to us).
    Silent,
    /// Send this response line.
    Answer(String),
    /// Run this tool call; then, when `id` is there, send [`call_answer`] for the reply (a
    /// call sent as a notification runs but is not answered).
    Call { id: Option<String>, cmd: Command },
}

pub enum RouteView {
    Silent,
    Answer(Seq<char>),
    Call { id: Option<Seq<char>>, cmd: CommandView },
}

impl View for Route {
    type V = RouteView;

    open spec fn view(&self) -> RouteView {
        match self {
            Route::Silent => RouteView::Silent,
            Route::Answer(s) => RouteView::Answer(s@),
            Route::Call { id, cmd } => RouteView::Call { id: opt_view(*id), cmd: cmd@ },
        }
    }
}

/// The arguments of a `tools/call` line, as `parse_call` reads them.
pub open spec fn request_args(t: Seq<char>) -> CallArgsView {
    CallArgsView {
        label: json_str_at(t, "/params/arguments/label"@),
        text: json_str_at(t, "/params/arguments/text"@),
        key: json_str_at(t, "/params/arguments/key"@),
        path: json_str_at(t, "/params/arguments/path"@),
        nth: json_u64_at(t, "/params/arguments/nth"@),
        repeat: json_u64_at(t, "/params/arguments/repeat"@),
        ms: json_u64_at(t, "/params/arguments/ms"@),
        submit: json_bool_at(t, "/params/arguments/submit"@),
    }
}

/// The request's `id` as JSON text (`null` when it has none).
pub open spec fn id_text(t: Seq<char>) -> Seq<char> {
    match json_text_at(t, "/id"@) {
        Some(i) => i,
        None => "null"@,
    }
}

/// `{"type":"text","text":…}`.
pub open spec fn text_content(text: Seq<char>) -> Seq<char> {
    obj(seq![member("text"@, json_quoted(text)), member("type"@, json_quoted("text"@))])
}

/// A tool result (`tools/call` response `result`): a text; a base64 PNG followed by a
/// text; or an error text flagged `isError`.
pub open spec fn call_result_json(r: ReplyView) -> Seq<char> {
    match r {
        ReplyView::Text(t) => obj(seq![member("content"@, arr(seq![text_content(t)]))]),
        ReplyView::Image { png, text } => obj(
            seq![
                member(
                    "content"@,
                    arr(
                        seq![
                            obj(
                                seq![
                                    member("data"@, json_quoted(base64_spec(png))),
                                    member("mimeType"@, json_quoted("image/png"@)),
                                    member("type"@, json_quoted("image"@)),
                                ],
                            ),
                            text_content(text),
                        ],
                    ),
                ),
            ],
        ),
        ReplyView::Error(t) => obj(
            seq![member("content"@, arr(seq![text_content(t)])), member("isError"@, "true"@)],
        ),
    }
}

/// The `initialize` result.
pub open spec fn initialize_json(version: Seq<char>, server: Seq<char>, instructions: Seq<char>, server_version: Seq<char>) -> Seq<char> {
    obj(
        seq![
            member("capabilities"@, obj(seq![member("tools"@, obj(seq![member("listChanged"@, "false"@)]))])),
            member("instructions"@, json_quoted(instructions)),
            member("protocolVersion"@, json_quoted(version)),
            member("serverInfo"@, obj(seq![member("name"@, json_quoted(server)), member("version"@, json_quoted(server_version))])),
        ],
    )
}

pub open spec fn answer(respond: bool, id: Seq<char>, result: Seq<char>) -> RouteView {
    if respond {
        RouteView::Answer(rpc_result(id, result))
    } else {
        RouteView::Silent
    }
}

/// What a request line holds, as read by `serde_json`: whether it is blank, the parse error
/// (when it is not JSON), `method`, `id` (as JSON text), `params.protocolVersion`,
/// `params.name`, and the arguments of a tool call.
#[derive(Debug, PartialEq)]
pub struct Request {
    pub blank: bool,
    pub error: Option<String>,
    pub method: Option<String>,
    pub id: Option<String>,
    pub protocol: Option<String>,
    pub tool: Option<String>,
    pub args: CallArgs,
}

pub struct RequestView {
    pub blank: bool,
    pub error: Option<Seq<char>>,
    pub method: Option<Seq<char>>,
    pub id: Option<Seq<char>>,
    pub protocol: Option<Seq<char>>,
    pub tool: Option<Seq<char>>,
    pub args: CallArgsView,
}

impl View for Request {
    type V = RequestView;

    open spec fn view(&self) -> RequestView {
        RequestView {
            blank: self.blank,
            error: opt_view(self.error),
            method: opt_view(self.method),
            id: opt_view(self.id),
            protocol: opt_view(self.protocol),
            tool: opt_view(self.tool),
            args: self.args@,
        }
    }
}

/// What `serde_json` reads from the trimmed line `t`.
pub open spec fn read_spec(t: Seq<char>) -> RequestView {
    RequestView {
        blank: t.len() == 0,
        error: json_error(t),
        method: json_str_at(t, "/method"@),
        id: json_text_at(t, "/id"@),
        protocol: json_str_at(t, "/params/protocolVersion"@),
        tool: json_str_at(t, "/params/name"@),
        args: request_args(t),
    }
}

/// What the server does with a request: nothing for a blank line, a notification or a
/// response; error -32700 (id `null`) for text that is not JSON; error -32601 for an unknown
/// method; the result of `initialize`, `ping`, `tools/list`; and for `tools/call` either the
/// parsed command to run or the argument error as a tool error. Answers carry the request's
/// `id` (`null` when it has none).
pub open spec fn answer_spec(q: RequestView, server: Seq<char>, instructions: Seq<char>, server_version: Seq<char>) -> RouteView {
    let id = match q.id {
        Some(i) => i,
        None => "null"@,
    };
    match dispatch_spec(q.blank, q.error is None, q.method, q.id is Some) {
        DispatchView::Nothing => RouteView::Silent,
        DispatchView::ParseError => RouteView::Answer(
            rpc_error(
                "null"@,
                "-32700"@,
                "parse error: "@ + match q.error {
                    Some(e) => e,
                    None => seq![],
                },
            ),
        ),
        DispatchView::NotFound(m) => RouteView::Answer(rpc_error(id, "-32601"@, m)),
        DispatchView::Run { method, respond } => match method {
            Method::Initialize => answer(
                respond,
                id,
                initialize_json(negotiate_spec(q.protocol), server, instructions, server_version),
            ),
            Method::Ping => answer(respond, id, obj(seq![])),
            Method::ToolsList => answer(respond, id, obj(seq![member("tools"@, tools_json(builtin_tools_spec()))])),
            Method::ToolsCall => match parse_call_spec(
                match q.tool {
                    Some(n) => n,
                    None => seq![],
                },
                q.args,
            ) {
                Ok(c) => RouteView::Call { id: if respond { Some(id) } else { None }, cmd: c },
                Err(e) => answer(respond, id, call_result_json(ReplyView::Error(e))),
            },
        },
    }
}

/// What the server does with request line `line`: the line is trimmed, read, and answered
/// (see [`answer_spec`]).
pub open spec fn route_spec(line: Seq<char>, server: Seq<char>, instructions: Seq<char>, server_version: Seq<char>) -> RouteView {
    answer_spec(read_spec(trim(line)), server, instructions, server_version)
}

fn text_content_chars(text: &[char]) -> (r: Vec<char>)
    ensures
        r@ == text_content(text@),
{
    let kind: [char; 4] = ['t', 'e', 'x', 't'];
    let mut ms: Vec<Vec<char>> = Vec::new();
    ms.push(member_quoted("text", text));
    ms.push(member_quoted("type", kind.as_slice()));
    proof {
        reveal_strlit("text");
        assert(kind@ =~= "text"@);
        assert(views(ms@) =~= seq![member("text"@, json_quoted(text@)), member("type"@, json_quoted("text"@))]);
    }
    obj_text(ms.as_slice())
}

/// The `result` of a `tools/call` that `reply` answers (see [`call_result_json`]).
pub fn call_result(reply: &Reply) -> (r: String)
    ensures
        r@ == call_result_json(reply@),
{
    let mut content: Vec<Vec<char>> = Vec::new();
    let mut outer: Vec<Vec<char>> = Vec::new();
    match reply {
        Reply::Text(t) => {
            let tc = chars_of(t.as_str());
            content.push(text_content_chars(tc.as_slice()));
            let list = arr_text(content.as_slice());
            outer.push(member_text("content", list.as_slice()));
            assert(views(content@) =~= seq![text_content(t@)]);
            assert(views(outer@) =~= seq![member("content"@, arr(seq![text_content(t@)]))]);
        },
        Reply::Image { png, text } => {
            let b = base64(png.as_slice());
            let bc = chars_of(b.as_str());
            let image: [char; 5] = ['i', 'm', 'a', 'g', 'e'];
            let mime = chars_of("image/png");
            let mut fields: Vec<Vec<char>> = Vec::new();
            fields.push(member_quoted("data", bc.as_slice()));
            fields.push(member_quoted("mimeType", mime.as_slice()));
            fields.push(member_quoted("type", image.as_slice()));
            proof {
                reveal_strlit("image");
                assert(image@ =~= "image"@);
                assert(views(fields@) =~= seq![
                    member("data"@, json_quoted(base64_spec(png@))),
                    member("mimeType"@, json_quoted("image/png"@)),
                    member("type"@, json_quoted("image"@)),
                ]);
            }
            let fo = obj_text(fields.as_slice());
            content.push(fo);
            let tc = chars_of(text.as_str());
            content.push(text_content_chars(tc.as_slice()));
            let list = arr_text(content.as_slice());
            outer.push(member_text("content", list.as_slice()));
            assert(views(content@) =~= seq![
                obj(seq![
                    member("data"@, json_quoted(base64_spec(png@))),
                    member("mimeType"@, json_quoted("image/png"@)),
                    member("type"@, json_quoted("image"@)),
                ]),
                text_content(text@),
            ]);
            assert(views(outer@) =~= seq![member("content"@, arr(views(content@)))]);
        },
        Reply::Error(t) => {
            let tc = chars_of(t.as_str());
            content.push(text_content_chars(tc.as_slice()));
            let list = arr_text(content.as_slice());
            outer.push(member_text("content", list.as_slice()));
            outer.push(member_text("isError", chars_of("true").as_slice()));
            assert(views(content@) =~= seq![text_content(t@)]);
            assert(views(outer@) =~= seq![member("content"@, arr(seq![text_content(t@)])), member("isError"@, "true"@)]);
        },
    }
    let r = obj_text(outer.as_slice());
    string_of(r.as_slice())
}

/// The response line for a finished tool call: the reply as a tool result under request id
/// `id`; nothing when the call came as a notification (`id` absent).
pub fn call_answer(id: Option<&str>, reply: &Reply) -> (r: Option<String>)
    ensures
        opt_view(r) == match id {
            Some(i) => Some(rpc_result(i@, call_result_json(reply@))),
            None => None::<Seq<char>>,
        },
{
    match id {
        Some(i) => {
            let res = call_result(reply);
            let ic = chars_of(i);
            let rc = chars_of(res.as_str());
            let out = rpc_result_text(ic.as_slice(), rc.as_slice());
            Some(string_of(out.as_slice()))
        },
        None => None,
    }
}

fn initialize_chars(version: &[char], server: &str, instructions: &str, server_version: &str) -> (r: Vec<char>)
    ensures
        r@ == initialize_json(version@, server@, instructions@, server_version@),
{
    let mut lc: Vec<Vec<char>> = Vec::new();
    lc.push(member_text("listChanged", chars_of("false").as_slice()));
    let lco = obj_text(lc.as_slice());
    let mut tl: Vec<Vec<char>> = Vec::new();
    tl.push(member_text("tools", lco.as_slice()));
    let caps = obj_text(tl.as_slice());
    let mut si: Vec<Vec<char>> = Vec::new();
    si.push(member_quoted("name", chars_of(server).as_slice()));
    si.push(member_quoted("version", chars_of(server_version).as_slice()));
    let info = obj_text(si.as_slice());
    let mut ms: Vec<Vec<char>> = Vec::new();
    ms.push(member_text("capabilities", caps.as_slice()));
    ms.push(member_quoted("instructions", chars_of(instructions).as_slice()));
    ms.push(member_quoted("protocolVersion", version));
    ms.push(member_text("serverInfo", info.as_slice()));
    assert(views(lc@) =~= seq![member("listChanged"@, "false"@)]);
    assert(views(tl@) =~= seq![member("tools"@, obj(seq![member("listChanged"@, "false"@)]))]);
    assert(views(si@) =~= seq![member("name"@, json_quoted(server@)), member("version"@, json_quoted(server_version@))]);
    assert(views(ms@) =~= seq![
        member("capabilities"@, obj(seq![member("tools"@, obj(seq![member("listChanged"@, "false"@)]))])),
        member("instructions"@, json_quoted(instructions@)),
        member("protocolVersion"@, json_quoted(version@)),
        member("serverInfo"@, obj(seq![member("name"@, json_quoted(server@)), member("version"@, json_quoted(server_version@))])),
    ]);
    obj_text(ms.as_slice())
}

fn answer_exec(respond: bool, id: &[char], result: &[char]) -> (r: Route)
    ensures
        r@ == answer(respond, id@, result@),
{
    if respond {
        let out = rpc_result_text(id, result);
        Route::Answer(string_of(out.as_slice()))
    } else {
        Route::Silent
    }
}

/// An integer as JSON writes it: a minus sign before negative numbers, then the decimal digits.
pub open spec fn signed_text(c: int) -> Seq<char> {
    if c < 0 {
        seq!['-'] + decimal((-c) as nat)
    } else {
        decimal(c as nat)
    }
}

/// A JSON-RPC 2.0 success response line: request id `id` (JSON text) and `result` (JSON text).
pub fn response(id: &str, result: &str) -> (r: String)
    ensures
        r@ == rpc_result(id@, result@),
{
    let out = rpc_result_text(chars_of(id).as_slice(), chars_of(result).as_slice());
    string_of(out.as_slice())
}

/// A JSON-RPC 2.0 error response line: request id `id` (JSON text), error `code`, `message`.
pub fn error(id: &str, code: i64, message: &str) -> (r: String)
    ensures
        r@ == rpc_error(id@, signed_text(code as int), message@),
{
    let mut c: Vec<char> = Vec::new();
    if code < 0 {
        c.push('-');
        let m: u64 = if code == i64::MIN {
            9223372036854775808
        } else {
            (-code) as u64
        };
        push_decimal(&mut c, m);
        assert(c@ =~= seq!['-'] + decimal((-(code as int)) as nat));
    } else {
        push_decimal(&mut c, code as u64);
        assert(c@ =~= decimal(code as nat));
    }
    let cs = string_of(c.as_slice());
    let out = rpc_error_text(chars_of(id).as_slice(), cs.as_str(), chars_of(message).as_slice());
    string_of(out.as_slice())
}

/// Read the trimmed request line `t` (see [`read_spec`]).
pub fn read_request(line: &str) -> (r: Request)
    ensures
        r@ == read_spec(trim(line@)),
{
    let lc = chars_of(line);
    let (a, b) = trim_bounds(lc.as_slice());
    let tc = slice_vec(lc.as_slice(), a, b);
    let ts = string_of(tc.as_slice());
    let t = ts.as_str();
    let r = Request {
        blank: tc.len() == 0,
        error: parse_error(t),
        method: str_at(t, "/method"),
        id: text_at(t, "/id"),
        protocol: str_at(t, "/params/protocolVersion"),
        tool: str_at(t, "/params/name"),
        args: CallArgs {
            label: str_at(t, "/params/arguments/label"),
            text: str_at(t, "/params/arguments/text"),
            key: str_at(t, "/params/arguments/key"),
            path: str_at(t, "/params/arguments/path"),
            nth: u64_at(t, "/params/arguments/nth"),
            repeat: u64_at(t, "/params/arguments/repeat"),
            ms: u64_at(t, "/params/arguments/ms"),
            submit: bool_at(t, "/params/arguments/submit"),
        },
    };
    assert(r@.args == request_args(t@));
    r
}

fn as_str_opt(o: &Option<String>) -> (r: Option<&str>)
    ensures
        opt_view(*o) == match r {
            Some(s) => Some(s@),
            None => None::<Seq<char>>,
        },
{
    match o {
        Some(s) => Some(s.as_str()),
        None => None,
    }
}

/// Answer a request that was read (see [`answer_spec`]). `server_version` is what
/// `serverInfo` reports.
pub fn route_request(q: &Request, server: &str, instructions: &str, server_version: &str) -> (r: Route)
    ensures
        r@ == answer_spec(q@, server@, instructions@, server_version@),
{
    let id: Vec<char> = match &q.id {
        Some(s) => chars_of(s.as_str()),
        None => chars_of("null"),
    };
    let d = dispatch(q.blank, q.error.is_none(), as_str_opt(&q.method), q.id.is_some());
    match d {
        Dispatch::Nothing => Route::Silent,
        Dispatch::ParseError => {
            let mut msg: Vec<char> = Vec::new();
            push_str(&mut msg, "parse error: ");
            match &q.error {
                Some(e) => push_str(&mut msg, e.as_str()),
                None => {},
            }
            let out = rpc_error_text(chars_of("null").as_slice(), "-32700", msg.as_slice());
            Route::Answer(string_of(out.as_slice()))
        },
        Dispatch::NotFound(m) => {
            let out = rpc_error_text(id.as_slice(), "-32601", chars_of(m.as_str()).as_slice());
            Route::Answer(string_of(out.as_slice()))
        },
        Dispatch::Run { method: k, respond } => match k {
            Method::Initialize => {
                let v = negotiate(as_str_opt(&q.protocol));
                let res = initialize_chars(chars_of(v.as_str()).as_slice(), server, instructions, server_version);
                answer_exec(respond, id.as_slice(), res.as_slice())
            },
            Method::Ping => {
                let none: Vec<Vec<char>> = Vec::new();
                let res = obj_text(none.as_slice());
                assert(views(none@) =~= Seq::<Seq<char>>::empty());
                answer_exec(respond, id.as_slice(), res.as_slice())
            },
            Method::ToolsList => {
                let tools = builtin_tools();
                let list = tools_text(tools.as_slice());
                let mut ms: Vec<Vec<char>> = Vec::new();
                ms.push(member_text("tools", list.as_slice()));
                assert(views(ms@) =~= seq![member("tools"@, tools_json(builtin_tools_spec()))]);
                let res = obj_text(ms.as_slice());
                answer_exec(respond, id.as_slice(), res.as_slice())
            },
            Method::ToolsCall => {
                let name = match &q.tool {
                    Some(n) => string_of(chars_of(n.as_str()).as_slice()),
                    None => string_of(Vec::<char>::new().as_slice()),
                };
                let args = CallArgs {
                    label: q.args.label.clone(),
                    text: q.args.text.clone(),
                    key: q.args.key.clone(),
                    path: q.args.path.clone(),
                    nth: q.args.nth,
                    repeat: q.args.repeat,
                    ms: q.args.ms,
                    submit: q.args.submit,
                };
                assert(args@ == q.args@);
                match parse_call(name.as_str(), args) {
                    Ok(c) => Route::Call {
                        id: if respond { Some(string_of(id.as_slice())) } else { None },
                        cmd: c,
                    },
                    Err(e) => {
                        let res = call_result(&Reply::Error(e));
                        answer_exec(respond, id.as_slice(), chars_of(res.as_str()).as_slice())
                    },
                }
            },
        },
    }
}

/// Route one request line (see [`route_spec`]). `server_version` is what `serverInfo`
/// reports.
pub fn route_line(line: &str, server: &str, instructions: &str, server_version: &str) -> (r: Route)
    ensures
        r@ == route_spec(line@, server@, instructions@, server_version@),
{
    let q = read_request(line);
    route_request(&q, server, instructions, server_version)
}

} // verus!
