//! The transport's decisions: where the socket lives, and what the `--mcp` stdio bridge does
//! next while it tries to reach the app.

use vstd::prelude::*;

use super::mcp::{call_answer, call_result_json, id_text};
use super::wire::{json_str_at, json_text_at, rpc_result, str_at, text_at};
use super::{Reply, ReplyView};
use crate::pathinput::{join_path, join_path_exec};
use crate::text::{chars_of, push_str, string_of};

verus! {

/// Bytes of `s` in UTF-8.
pub open spec fn utf8_len(s: Seq<char>) -> nat
    decreases s.len(),
{
    if s.len() == 0 {
        0
    } else {
        let c = s.last() as u32;
        utf8_len(s.drop_last()) + if c < 0x80 { 1nat } else if c < 0x800 { 2nat } else if c < 0x10000 { 3nat } else { 4nat }
    }
}

fn utf8_len_exec(s: &[char]) -> (r: usize)
    ensures
        r == utf8_len(s@) || (r == usize::MAX && utf8_len(s@) >= usize::MAX),
{
    let mut n: usize = 0;
    let mut i: usize = 0;
    while i < s.len()
        invariant
            i <= s.len(),
            n == utf8_len(s@.take(i as int)) || (n == usize::MAX && utf8_len(s@.take(i as int)) >= usize::MAX),
        decreases s.len() - i,
    {
        proof {
            assert(s@.take(i + 1).drop_last() =~= s@.take(i as int));
            lemma_utf8_len_grows(s@.take(i + 1));
        }
        let c = s[i] as u32;
        let k: usize = if c < 0x80 { 1 } else if c < 0x800 { 2 } else if c < 0x10000 { 3 } else { 4 };
        n = n.saturating_add(k);
        i = i + 1;
    }
    proof {
        assert(s@.take(i as int) =~= s@);
    }
    n
}

proof fn lemma_utf8_len_grows(s: Seq<char>)
    requires
        s.len() > 0,
    ensures
        utf8_len(s) > utf8_len(s.drop_last()),
{
}

/// Longest socket path kept next to the settings file (a `sockaddr_un` holds about 104
/// bytes on macOS).
pub const SOCKET_PATH_LIMIT: usize = 100;

/// Where the socket for `app_id` lives: `<app_id>.sock` in the settings directory when there
/// is one and the path stays under [`SOCKET_PATH_LIMIT`] bytes, else `fuide-<app_id>.sock` in
/// the temp directory.
pub open spec fn socket_path_spec(app_id: Seq<char>, config_dir: Option<Seq<char>>, temp_dir: Seq<char>) -> Seq<char> {
    let name = app_id + ".sock"@;
    match config_dir {
        Some(d) if utf8_len(join_path(d, name)) < SOCKET_PATH_LIMIT => join_path(d, name),
        _ => join_path(temp_dir, "fuide-"@ + name),
    }
}

/// `socket_path_spec(app_id, config_dir, temp_dir)`.
pub fn socket_path(app_id: &str, config_dir: Option<&str>, temp_dir: &str) -> (r: String)
    ensures
        r@ == socket_path_spec(app_id@, match config_dir { Some(d) => Some(d@), None => None }, temp_dir@),
{
    let mut name: Vec<char> = Vec::new();
    push_str(&mut name, app_id);
    push_str(&mut name, ".sock");
    if let Some(d) = config_dir {
        let p = join_path_exec(chars_of(d).as_slice(), name.as_slice());
        if utf8_len_exec(p.as_slice()) < SOCKET_PATH_LIMIT {
            return string_of(p.as_slice());
        }
    }
    let mut alt: Vec<char> = Vec::new();
    push_str(&mut alt, "fuide-");
    crate::text::push_all(&mut alt, name.as_slice());
    assert(alt@ =~= "fuide-"@ + app_id@ + ".sock"@);
    let p = join_path_exec(chars_of(temp_dir).as_slice(), alt.as_slice());
    string_of(p.as_slice())
}

/// What the bridge does after one attempt to reach the app's socket.
#[derive(Clone, Debug, PartialEq)]
pub enum Attempt {
    /// Connected: forward the call.
    Connected,
    /// Not there yet, and the app was not launched: launch it (macOS `open -a`), then retry.
    Launch,
    /// Give up with this message for the client.
    GiveUp(String),
    /// Wait a moment and retry.
    Retry,
}

pub enum AttemptView {
    Connected,
    Launch,
    GiveUp(Seq<char>),
    Retry,
}

impl View for Attempt {
    type V = AttemptView;

    open spec fn view(&self) -> AttemptView {
        match self {
            Attempt::Connected => AttemptView::Connected,
            Attempt::Launch => AttemptView::Launch,
            Attempt::GiveUp(m) => AttemptView::GiveUp(m@),
            Attempt::Retry => AttemptView::Retry,
        }
    }
}

/// The message for an app that could not be reached at `path` (`err` says why).
pub open spec fn unreachable_message(app_name: Seq<char>, path: Seq<char>, err: Seq<char>) -> Seq<char> {
    app_name + " is not reachable at "@ + path + " ("@ + err
        + "). Start the app and turn on Settings (Cmd+,) → AGENT → ON, then call again."@
}

/// The next step after an attempt: `error` is `None` when the connection was made; `launched`
/// says whether the app was launched already, `can_launch` whether this platform can launch
/// it, `past_deadline` whether the launch wait is over.
pub open spec fn next_attempt_spec(
    error: Option<Seq<char>>,
    launched: bool,
    can_launch: bool,
    past_deadline: bool,
    app_name: Seq<char>,
    path: Seq<char>,
) -> AttemptView {
    match error {
        None => AttemptView::Connected,
        Some(e) => {
            if !launched && can_launch {
                AttemptView::Launch
            } else if past_deadline {
                AttemptView::GiveUp(unreachable_message(app_name, path, e))
            } else {
                AttemptView::Retry
            }
        },
    }
}

/// `next_attempt_spec(error, launched, can_launch, past_deadline, app_name, path)`.
pub fn next_attempt(
    error: Option<&str>,
    launched: bool,
    can_launch: bool,
    past_deadline: bool,
    app_name: &str,
    path: &str,
) -> (r: Attempt)
    ensures
        r@ == next_attempt_spec(
            match error { Some(e) => Some(e@), None => None },
            launched,
            can_launch,
            past_deadline,
            app_name@,
            path@,
        ),
{
    match error {
        None => Attempt::Connected,
        Some(e) => {
            if !launched && can_launch {
                Attempt::Launch
            } else if past_deadline {
                let mut m: Vec<char> = Vec::new();
                push_str(&mut m, app_name);
                push_str(&mut m, " is not reachable at ");
                push_str(&mut m, path);
                push_str(&mut m, " (");
                push_str(&mut m, e);
                push_str(
                    &mut m,
                    "). Start the app and turn on Settings (Cmd+,) → AGENT → ON, then call again.",
                );
                assert(m@ =~= unreachable_message(app_name@, path@, e@));
                Attempt::GiveUp(string_of(m.as_slice()))
            } else {
                Attempt::Retry
            }
        },
    }
}

/// The message when the connection broke while forwarding (`err` says how).
pub open spec fn went_away_spec(app_name: Seq<char>, err: Seq<char>) -> Seq<char> {
    app_name + " went away ("@ + err + "). Is it still running with the agent on? Call again to reconnect."@
}

/// `went_away_spec(app_name, err)`.
pub fn went_away(app_name: &str, err: &str) -> (r: String)
    ensures
        r@ == went_away_spec(app_name@, err@),
{
    let mut m: Vec<char> = Vec::new();
    push_str(&mut m, app_name);
    push_str(&mut m, " went away (");
    push_str(&mut m, err);
    push_str(&mut m, "). Is it still running with the agent on? Call again to reconnect.");
    assert(m@ =~= went_away_spec(app_name@, err@));
    string_of(m.as_slice())
}

/// The bridge forwards exactly the `tools/call` requests to the app and answers the rest itself.
pub fn forwards(method: Option<&str>) -> (r: bool)
    ensures
        r == (method matches Some(m) && m@ == "tools/call"@),
{
    match method {
        Some(m) => crate::text::seq_eq(chars_of(m).as_slice(), chars_of("tools/call").as_slice()),
        None => false,
    }
}

/// The bridge forwards request line `line` to the app: its `method` is `tools/call`.
pub fn line_forwards(line: &str) -> (r: bool)
    ensures
        r == (json_str_at(line@, "/method"@) == Some("tools/call"@)),
{
    let m = str_at(line, "/method");
    forwards(match &m {
        Some(s) => Some(s.as_str()),
        None => None,
    })
}

/// The answer to a forwarded call that could not reach the app: `error` as a tool error
/// under the request's id.
pub fn forward_failed(line: &str, error: String) -> (r: String)
    ensures
        r@ == rpc_result(id_text(line@), call_result_json(ReplyView::Error(error@))),
{
    let idt = text_at(line, "/id");
    let id = match &idt {
        Some(s) => string_of(chars_of(s.as_str()).as_slice()),
        None => string_of(chars_of("null").as_slice()),
    };
    let reply = Reply::Error(error);
    match call_answer(Some(id.as_str()), &reply) {
        Some(s) => s,
        None => string_of(Vec::<char>::new().as_slice()),
    }
}

/// Once the app was launched, the bridge never launches it again: it connects, retries or
/// gives up.
pub proof fn law_launch_at_most_once(error: Option<Seq<char>>, can_launch: bool, past_deadline: bool, app_name: Seq<char>, path: Seq<char>)
    ensures
        !(next_attempt_spec(error, true, can_launch, past_deadline, app_name, path) is Launch),
{
}

} // verus!
