//! What the agent is told: the observation text, the refusals for human-only confirmations,
//! the status line of the settings window and the `initialize` instructions.

use std::sync::atomic::AtomicUsize;

use vstd::prelude::*;

use super::lookup::{addressable, addressable_exec, Widget};
use crate::fmt::{decimal, push_decimal};
use crate::text::{
    chars_of, eq_ignore_ascii_case, eq_ignore_ascii_case_exec, join, push_all, push_join,
    push_str, seq_eq, string_of, trim_end, trim_end_vec, views,
};

verus! {

/// What std's `Debug` prints for a string: the text in double quotes, with escapes.
pub uninterp spec fn debug_quoted(s: Seq<char>) -> Seq<char>;

/// std's `Debug` for `str` (`format!("{s:?}")`). Claimed: the result is `debug_quoted(s)`, a
/// function of `s` alone; the escaping rules themselves are not stated.
#[verifier::external_body]
fn debug_text(s: &str) -> (r: String)
    ensures
        r@ == debug_quoted(s@),
{
    format!("{s:?}")
}

/// `label` is one of the labels reserved for the human, ignoring ASCII case.
pub open spec fn blocked_label(blocked: Seq<Seq<char>>, label: Seq<char>) -> bool {
    exists|j: int| 0 <= j < blocked.len() && eq_ignore_ascii_case(#[trigger] blocked[j], label)
}

/// The views of a sequence of strings.
pub open spec fn string_views(v: Seq<String>) -> Seq<Seq<char>> {
    v.map_values(|s: String| s@)
}

/// `blocked_label(blocked, label)`.
pub fn is_blocked_in(blocked: &[String], label: &str) -> (r: bool)
    ensures
        r == blocked_label(string_views(blocked@), label@),
{
    let lv = chars_of(label);
    let mut j: usize = 0;
    while j < blocked.len()
        invariant
            j <= blocked.len(),
            lv@ == label@,
            forall|k: int| 0 <= k < j ==> !eq_ignore_ascii_case(#[trigger] string_views(blocked@)[k], label@),
        decreases blocked.len() - j,
    {
        if eq_ignore_ascii_case_exec(chars_of(blocked[j].as_str()).as_slice(), lv.as_slice()) {
            assert(eq_ignore_ascii_case(string_views(blocked@)[j as int], label@));
            return true;
        }
        j = j + 1;
    }
    false
}

/// The refusal for an action reserved for the human.
pub open spec fn blocked_message_spec(what: Seq<char>) -> Seq<char> {
    "`"@ + what
        + "` is reserved for the human while this confirmation is open (Settings → AGENT → CONFIRM DIALOGS). Ask them, or click CANCEL."@
}

/// `blocked_message_spec(what)`.
pub fn blocked_message_text(what: &str) -> (r: String)
    ensures
        r@ == blocked_message_spec(what@),
{
    let mut e: Vec<char> = Vec::new();
    push_str(&mut e, "`");
    push_str(&mut e, what);
    push_str(
        &mut e,
        "` is reserved for the human while this confirmation is open (Settings → AGENT → CONFIRM DIALOGS). Ask them, or click CANCEL.",
    );
    assert(e@ =~= blocked_message_spec(what@));
    string_of(e.as_slice())
}

/// One line of the widget list: `[role] LABEL = "value" (state) @x,y`.
pub open spec fn widget_line(w: Widget, blocked: Seq<Seq<char>>) -> Seq<char> {
    let value = match w.value {
        Some(v) => " = "@ + debug_quoted(v@),
        None => Seq::empty(),
    };
    let sel = if w.selected == Some(true) {
        if w.role@ == "toggle"@ {
            " (on)"@
        } else {
            " (selected)"@
        }
    } else {
        Seq::empty()
    };
    let dis = if !w.enabled { " (disabled)"@ } else { Seq::empty() };
    let human = if blocked_label(blocked, w.label@) { " (human only)"@ } else { Seq::empty() };
    "["@ + w.role@ + "] "@ + w.label@ + value + sel + dis + human + " @"@ + w.at@ + "\n"@
}

/// The lines of the widgets at `idx`, in order.
pub open spec fn widget_lines(ws: Seq<Widget>, idx: Seq<usize>, blocked: Seq<Seq<char>>) -> Seq<char>
    decreases idx.len(),
{
    if idx.len() == 0 {
        Seq::empty()
    } else {
        widget_lines(ws, idx.drop_last(), blocked) + widget_line(ws[idx.last() as int], blocked)
    }
}

/// The observation: a header with the window size and the app's state summary, every
/// addressable widget on a line, and a note naming the labels reserved for the human.
pub open spec fn observation_spec(
    app_name: Seq<char>,
    size: Seq<char>,
    ws: Seq<Widget>,
    blocked: Seq<Seq<char>>,
    state: Seq<char>,
) -> Seq<char> {
    let pool = addressable(ws);
    let modal = pool.len() != ws.len();
    let head = app_name + " :: window "@ + size + "\n"@ + trim_end(state) + "\n\nWIDGETS ("@
        + decimal(pool.len()) + ")"@ + if modal {
        " — a dialog is open; only its parts are listed"@
    } else {
        Seq::empty()
    } + "\n"@;
    let note = if blocked.len() > 0 {
        "\nNOTE: "@ + join(blocked, " / "@)
            + " is reserved for the human (Settings → AGENT → CONFIRM DIALOGS).\n"@
    } else {
        Seq::empty()
    };
    head + widget_lines(ws, pool, blocked) + note
}

fn push_widget_line(out: &mut Vec<char>, w: &Widget, blocked: &[String])
    ensures
        final(out)@ == old(out)@ + widget_line(*w, string_views(blocked@)),
{
    push_str(out, "[");
    push_str(out, w.role.as_str());
    push_str(out, "] ");
    push_str(out, w.label.as_str());
    if let Some(v) = &w.value {
        push_str(out, " = ");
        let d = debug_text(v.as_str());
        push_str(out, d.as_str());
    }
    if w.selected == Some(true) {
        if seq_eq(chars_of(w.role.as_str()).as_slice(), chars_of("toggle").as_slice()) {
            push_str(out, " (on)");
        } else {
            push_str(out, " (selected)");
        }
    }
    if !w.enabled {
        push_str(out, " (disabled)");
    }
    if is_blocked_in(blocked, w.label.as_str()) {
        push_str(out, " (human only)");
    }
    push_str(out, " @");
    push_str(out, w.at.as_str());
    push_str(out, "\n");
    assert(out@ =~= old(out)@ + widget_line(*w, string_views(blocked@)));
}

/// `observation_spec(app_name, size, ws, blocked, state)`.
pub fn observation_text(app_name: &str, size: &str, ws: &[Widget], blocked: &[String], state: &str) -> (r: String)
    ensures
        r@ == observation_spec(app_name@, size@, ws@, string_views(blocked@), state@),
{
    let pool = addressable_exec(ws);
    let modal = pool.len() != ws.len();
    let mut out: Vec<char> = Vec::new();
    push_str(&mut out, app_name);
    push_str(&mut out, " :: window ");
    push_str(&mut out, size);
    push_str(&mut out, "\n");
    let st = trim_end_vec(chars_of(state).as_slice());
    push_all(&mut out, st.as_slice());
    push_str(&mut out, "\n\nWIDGETS (");
    push_decimal(&mut out, pool.len() as u64);
    push_str(&mut out, ")");
    if modal {
        push_str(&mut out, " — a dialog is open; only its parts are listed");
    }
    push_str(&mut out, "\n");
    let ghost head = out@;
    let mut k: usize = 0;
    while k < pool.len()
        invariant
            k <= pool.len(),
            forall|q: int| 0 <= q < pool.len() ==> #[trigger] pool@[q] < ws.len(),
            out@ == head + widget_lines(ws@, pool@.take(k as int), string_views(blocked@)),
        decreases pool.len() - k,
    {
        proof {
            assert(pool@.take(k + 1).drop_last() =~= pool@.take(k as int));
            assert(pool@.take(k + 1).last() == pool@[k as int]);
        }
        push_widget_line(&mut out, &ws[pool[k]], blocked);
        proof {
            assert(out@ =~= head + widget_lines(ws@, pool@.take(k + 1), string_views(blocked@)));
        }
        k = k + 1;
    }
    proof {
        assert(pool@.take(k as int) =~= pool@);
    }
    let ghost body = out@;
    if blocked.len() > 0 {
        push_str(&mut out, "\nNOTE: ");
        let mut bs: Vec<Vec<char>> = Vec::new();
        let mut j: usize = 0;
        while j < blocked.len()
            invariant
                j <= blocked.len(),
                views(bs@) == string_views(blocked@).take(j as int),
            decreases blocked.len() - j,
        {
            let ghost before = bs@;
            bs.push(chars_of(blocked[j].as_str()));
            proof {
                assert(views(bs@) =~= views(before).push(blocked@[j as int]@));
                assert(views(bs@) =~= string_views(blocked@).take(j + 1));
            }
            j = j + 1;
        }
        proof {
            assert(string_views(blocked@).take(j as int) =~= string_views(blocked@));
        }
        let sep = chars_of(" / ");
        push_join(&mut out, bs.as_slice(), sep.as_slice());
        push_str(&mut out, " is reserved for the human (Settings → AGENT → CONFIRM DIALOGS).\n");
    }
    assert(out@ =~= observation_spec(app_name@, size@, ws@, string_views(blocked@), state@));
    string_of(out.as_slice())
}

/// Shared by the socket server's threads with the UI thread: connected clients and calls
/// made, for the settings window.
#[derive(Debug, Default)]
pub struct Stats {
    pub clients: AtomicUsize,
    pub calls: AtomicUsize,
}

/// What the socket server reports: connected clients, answered calls and the socket's file
/// name.
#[derive(Clone, Debug, PartialEq)]
pub struct ServerStatus {
    pub clients: usize,
    pub calls: usize,
    pub file: String,
}

/// The settings window's status line: the server error if starting failed, `OFF` without a
/// server, else the client count with the call count or the last action.
pub open spec fn status_line_spec(
    error: Option<Seq<char>>,
    server: Option<(nat, nat, Seq<char>)>,
    last_action: Option<Seq<char>>,
) -> Seq<char> {
    match error {
        Some(e) => "ERROR :: "@ + e,
        None => match server {
            None => "OFF"@,
            Some((clients, calls, file)) => {
                let s = if clients > 1 { "S"@ } else { Seq::empty() };
                if clients == 0 {
                    "ON :: WAITING FOR A CLIENT :: "@ + file
                } else {
                    match last_action {
                        None => "ON :: "@ + decimal(clients) + " CLIENT"@ + s + " :: "@ + decimal(calls)
                            + " CALLS"@,
                        Some(a) => "ON :: "@ + decimal(clients) + " CLIENT"@ + s + " :: "@ + a,
                    }
                }
            },
        },
    }
}

/// `status_line_spec(error, server, last_action)`.
pub fn status_line_text(error: Option<&str>, server: Option<&ServerStatus>, last_action: Option<&str>) -> (r: String)
    ensures
        r@ == status_line_spec(
            match error { Some(e) => Some(e@), None => None },
            match server { Some(s) => Some((s.clients as nat, s.calls as nat, s.file@)), None => None },
            match last_action { Some(a) => Some(a@), None => None },
        ),
{
    let mut out: Vec<char> = Vec::new();
    if let Some(e) = error {
        push_str(&mut out, "ERROR :: ");
        push_str(&mut out, e);
    } else if let Some(s) = server {
        if s.clients == 0 {
            push_str(&mut out, "ON :: WAITING FOR A CLIENT :: ");
            push_str(&mut out, s.file.as_str());
        } else {
            push_str(&mut out, "ON :: ");
            push_decimal(&mut out, s.clients as u64);
            push_str(&mut out, " CLIENT");
            if s.clients > 1 {
                push_str(&mut out, "S");
            }
            push_str(&mut out, " :: ");
            match last_action {
                None => {
                    push_decimal(&mut out, s.calls as u64);
                    push_str(&mut out, " CALLS");
                },
                Some(a) => push_str(&mut out, a),
            }
        }
    } else {
        push_str(&mut out, "OFF");
    }
    let ghost want = status_line_spec(
        match error { Some(e) => Some(e@), None => None },
        match server { Some(s) => Some((s.clients as nat, s.calls as nat, s.file@)), None => None },
        match last_action { Some(a) => Some(a@), None => None },
    );
    assert(out@ =~= want);
    string_of(out.as_slice())
}

/// The `initialize` instructions an MCP client shows its model.
pub open spec fn instructions_spec(app_name: Seq<char>) -> Seq<char> {
    "Drives the "@ + app_name
        + " window (a FUI desktop app) while a person watches: call `observe` first, then `click` / `type` / `key` using the exact labels it lists, and read the observation each action returns. Some confirmations are reserved for the human; the observation says so. Tools beyond `observe` / `screenshot` / `click` / `type` / `key` / `wait` are the app's own: prefer them for structured edits — they act directly and return the observation afterwards."@
}

} // verus!
