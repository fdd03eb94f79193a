//! Agent interface: the decisions behind letting an agent (any MCP client) observe and drive
//! the app while a human watches.
//!
//! The app keeps the parts that touch egui (the widget registry's ids and rects, the cursor
//! animation, injecting events, the socket). Every frame it hands this module what happened
//! (the time, the app's state summary, whether the cursor arrived, a captured screenshot) and
//! carries out the [`Effect`]s that come back.

pub mod bridge;
pub mod encode;
pub mod keys;
pub mod lookup;
pub mod mcp;
pub mod report;
pub mod tools;
pub mod wire;

use vstd::prelude::*;

use self::keys::{combo_result, parse_combo, Mods};
use self::lookup::{
    addressable, find_in, find_spec, hits, indices, is_modal, keep, passes, passes_low, std_lower, tiers,
    tiers_low, Test, Widget,
};
use self::report::{
    blocked_label, blocked_message_spec, blocked_message_text, instructions_spec, is_blocked_in,
    observation_spec, observation_text, status_line_spec, status_line_text, string_views,
    ServerStatus,
};
use crate::fmt::decimal;
use crate::text::{
    chars_of, push_all, push_str, seq_eq, slice_vec, string_of, to_lowercase, to_uppercase, trim,
    uppercase,
};

verus! {

#[verifier::external_type_specification]
#[verifier::external_body]
pub struct ExJsonValue(serde_json::Value);

// ------------------------------------------------------------------------------- protocol

/// The answer to one tool call.
#[derive(Clone, Debug, PartialEq)]
pub enum Reply {
    Text(String),
    Image { png: Vec<u8>, text: String },
    Error(String),
}

pub enum ReplyView {
    Text(Seq<char>),
    Image { png: Seq<u8>, text: Seq<char> },
    Error(Seq<char>),
}

impl View for Reply {
    type V = ReplyView;

    open spec fn view(&self) -> ReplyView {
        match self {
            Reply::Text(t) => ReplyView::Text(t@),
            Reply::Image { png, text } => ReplyView::Image { png: png@, text: text@ },
            Reply::Error(e) => ReplyView::Error(e@),
        }
    }
}

/// A call of an app-defined tool, taken by the app from [`Agent::take_tool`].
#[derive(Debug, PartialEq)]
pub struct ToolCall {
    pub name: String,
    pub args: serde_json::Value,
}

/// A tool call as the agent core sees it. (The screenshot's scale factor stays with the app,
/// which does the scaling.)
#[derive(Debug, PartialEq)]
pub enum Command {
    Observe,
    /// An app-defined tool.
    Tool { name: String, args: serde_json::Value },
    Screenshot { path: Option<String> },
    Click { label: String, nth: usize },
    Type { text: String, label: Option<String>, submit: bool },
    Key { combo: String, repeat: usize },
    Wait { ms: u64 },
}

pub enum CommandView {
    Observe,
    Tool { name: Seq<char>, args: serde_json::Value },
    Screenshot { path: Option<Seq<char>> },
    Click { label: Seq<char>, nth: nat },
    Type { text: Seq<char>, label: Option<Seq<char>>, submit: bool },
    Key { combo: Seq<char>, repeat: nat },
    Wait { ms: nat },
}

pub open spec fn opt_view(o: Option<String>) -> Option<Seq<char>> {
    match o {
        Some(s) => Some(s@),
        None => None,
    }
}

impl View for Command {
    type V = CommandView;

    open spec fn view(&self) -> CommandView {
        match self {
            Command::Observe => CommandView::Observe,
            Command::Tool { name, args } => CommandView::Tool { name: name@, args: *args },
            Command::Screenshot { path } => CommandView::Screenshot { path: opt_view(*path) },
            Command::Click { label, nth } => CommandView::Click { label: label@, nth: *nth as nat },
            Command::Type { text, label, submit } => CommandView::Type {
                text: text@,
                label: opt_view(*label),
                submit: *submit,
            },
            Command::Key { combo, repeat } => CommandView::Key {
                combo: combo@,
                repeat: *repeat as nat,
            },
            Command::Wait { ms } => CommandView::Wait { ms: *ms as nat },
        }
    }
}

/// The `initialize` instructions an MCP client shows its model.
pub fn instructions(app_name: &str) -> (r: String)
    ensures
        r@ == instructions_spec(app_name@),
{
    let mut out: Vec<char> = Vec::new();
    push_str(&mut out, "Drives the ");
    push_str(&mut out, app_name);
    push_str(
        &mut out,
        " window (a FUI desktop app) while a person watches: call `observe` first, then `click` / `type` / `key` using the exact labels it lists, and read the observation each action returns. Some confirmations are reserved for the human; the observation says so. Tools beyond `observe` / `screenshot` / `click` / `type` / `key` / `wait` are the app's own: prefer them for structured edits — they act directly and return the observation afterwards.",
    );
    assert(out@ =~= instructions_spec(app_name@));
    string_of(out.as_slice())
}

// ------------------------------------------------------------------------------- the machine

/// Frames to let the app react after an action before reporting back.
pub const SETTLE_FRAMES: u32 = 8;

/// Frames to wait for a widget an app tool created (it registers on its first draw).
pub const POINT_FRAMES: u32 = 4;

/// Typewriter delay between characters, milliseconds.
pub const CHAR_DELAY_MS: u64 = 35;

/// How long a screenshot may take to arrive, milliseconds.
pub const SHOT_TIMEOUT_MS: u64 = 3000;

/// What happens when the cursor reaches its target.
#[derive(Clone, Debug, PartialEq)]
pub enum Next {
    Click,
    /// Focus the input, then type `chars`.
    Focus { chars: Vec<char>, submit: bool },
    /// Arrive and flash only (an app tool already did the work).
    Flash,
}

/// Where the call in flight stands.
#[derive(Debug, PartialEq)]
pub enum Phase {
    Idle,
    /// The cursor glides to the target.
    Move { next: Next },
    /// Typing `chars[at..]`, the next one at `next_at`.
    Type { chars: Vec<char>, at: usize, next_at: u64, submit: bool },
    /// `left` more presses of `key`; `release` when the last press awaits its release.
    Keys { key: String, mods: Mods, left: usize, release: bool },
    /// Let the app react for `frames` more frames, then answer with the observation.
    Settle { frames: u32 },
    /// Waiting for the screenshot requested at `since`.
    Shot { path: Option<String>, since: u64 },
    Wait { until: u64 },
    /// An app tool: `call` is `Some` until the app takes it, then the phase waits for
    /// [`Agent::finish_tool`].
    Tool { call: Option<ToolCall> },
    /// After an app tool: find the widget it touched (it may only appear next frame) and
    /// fly the cursor there.
    Point { label: String, frames: u32 },
}

pub enum NextView {
    Click,
    Focus { chars: Seq<char>, submit: bool },
    Flash,
}

pub enum PhaseView {
    Idle,
    Move { next: NextView },
    Type { chars: Seq<char>, next_at: u64, submit: bool },
    Keys { key: Seq<char>, mods: Mods, left: nat, release: bool },
    Settle { frames: nat },
    Shot { path: Option<Seq<char>>, since: u64 },
    Wait { until: u64 },
    Tool { call: Option<(Seq<char>, serde_json::Value)> },
    Point { label: Seq<char>, frames: nat },
}

impl View for Next {
    type V = NextView;

    open spec fn view(&self) -> NextView {
        match self {
            Next::Click => NextView::Click,
            Next::Focus { chars, submit } => NextView::Focus { chars: chars@, submit: *submit },
            Next::Flash => NextView::Flash,
        }
    }
}

impl View for Phase {
    type V = PhaseView;

    /// `Type` is seen by the characters still to type.
    open spec fn view(&self) -> PhaseView {
        match self {
            Phase::Idle => PhaseView::Idle,
            Phase::Move { next } => PhaseView::Move { next: next@ },
            Phase::Type { chars, at, next_at, submit } => PhaseView::Type {
                chars: if (*at as int) <= chars@.len() { chars@.skip(*at as int) } else { Seq::empty() },
                next_at: *next_at,
                submit: *submit,
            },
            Phase::Keys { key, mods, left, release } => PhaseView::Keys {
                key: key@,
                mods: *mods,
                left: *left as nat,
                release: *release,
            },
            Phase::Settle { frames } => PhaseView::Settle { frames: *frames as nat },
            Phase::Shot { path, since } => PhaseView::Shot { path: opt_view(*path), since: *since },
            Phase::Wait { until } => PhaseView::Wait { until: *until },
            Phase::Tool { call } => PhaseView::Tool {
                call: match call {
                    Some(c) => Some((c.name@, c.args)),
                    None => None,
                },
            },
            Phase::Point { label, frames } => PhaseView::Point { label: label@, frames: *frames as nat },
        }
    }
}

/// Something the app carries out for the agent this frame, in order.
#[derive(Clone, Debug, PartialEq)]
pub enum Effect {
    /// Answer the call in flight.
    Reply(Reply),
    /// Start the cursor's glide to widget `i` of the current list (the app keeps that
    /// widget's id and rect as the target).
    Glide(usize),
    /// Click the target (an accesskit click on its id).
    Click,
    /// Give the target keyboard focus.
    Focus,
    /// Flash the target.
    Flash,
    /// Type one character (`'\n'` is an Enter press).
    Char(char),
    KeyDown { key: String, mods: Mods },
    KeyUp { key: String, mods: Mods },
    /// Ask the window for a screenshot.
    Screenshot,
    /// Keep the cursor fully visible (it fades a while after the last touch).
    Touch,
}

pub enum EffectView {
    Reply(ReplyView),
    Glide(usize),
    Click,
    Focus,
    Flash,
    Char(char),
    KeyDown { key: Seq<char>, mods: Mods },
    KeyUp { key: Seq<char>, mods: Mods },
    Screenshot,
    Touch,
}

impl View for Effect {
    type V = EffectView;

    open spec fn view(&self) -> EffectView {
        match self {
            Effect::Reply(r) => EffectView::Reply(r@),
            Effect::Glide(i) => EffectView::Glide(*i),
            Effect::Click => EffectView::Click,
            Effect::Focus => EffectView::Focus,
            Effect::Flash => EffectView::Flash,
            Effect::Char(c) => EffectView::Char(*c),
            Effect::KeyDown { key, mods } => EffectView::KeyDown { key: key@, mods: *mods },
            Effect::KeyUp { key, mods } => EffectView::KeyUp { key: key@, mods: *mods },
            Effect::Screenshot => EffectView::Screenshot,
            Effect::Touch => EffectView::Touch,
        }
    }
}

pub open spec fn effect_views(v: Seq<Effect>) -> Seq<EffectView> {
    v.map_values(|e: Effect| e@)
}

/// A screenshot that arrived while the agent waited for one: the PNG, its size, and, when the
/// call asked to save it, how writing the file went.
#[derive(Clone, Debug, PartialEq)]
pub struct Shot {
    pub png: Vec<u8>,
    pub width: usize,
    pub height: usize,
    pub saved: Option<Result<(), String>>,
}

/// What the app saw this frame.
#[derive(Clone, Debug, PartialEq)]
pub struct Frame {
    /// Milliseconds on the app's clock.
    pub now: u64,
    /// The app's state summary, when it computed one (see [`Agent::wants_state`]).
    pub state: Option<String>,
    /// The window's size as `WxH`.
    pub size: String,
    /// The cursor has reached the target of the glide.
    pub arrived: bool,
    /// The screenshot asked for, if it came.
    pub shot: Option<Shot>,
}

/// The agent's state as its contracts speak of it.
pub struct AgentView {
    pub app_name: Seq<char>,
    pub mac: bool,
    pub phase: PhaseView,
    pub widgets: Seq<Widget>,
    pub blocked: Seq<Seq<char>>,
    pub tools: Seq<Seq<char>>,
    pub last_action: Option<Seq<char>>,
    pub tool_text: Option<Seq<char>>,
}

/// The agent core: what is in flight, the widgets of the last frame, the labels reserved for
/// the human, the app's own tools.
pub struct Agent {
    app_name: String,
    mac: bool,
    phase: Phase,
    widgets: Vec<Widget>,
    blocked: Vec<String>,
    tools: Vec<String>,
    last_action: Option<String>,
    tool_text: Option<String>,
}

impl View for Agent {
    type V = AgentView;

    closed spec fn view(&self) -> AgentView {
        AgentView {
            app_name: self.app_name@,
            mac: self.mac,
            phase: self.phase@,
            widgets: self.widgets@,
            blocked: string_views(self.blocked@),
            tools: string_views(self.tools@),
            last_action: opt_view(self.last_action),
            tool_text: opt_view(self.tool_text),
        }
    }
}

/// `now + d`, or the clock's end.
pub open spec fn later(now: u64, d: nat) -> u64 {
    if now + d > u64::MAX {
        u64::MAX
    } else {
        (now + d) as u64
    }
}

/// The answers among `fx`.
pub open spec fn replies(fx: Seq<EffectView>) -> nat
    decreases fx.len(),
{
    if fx.len() == 0 {
        0
    } else {
        replies(fx.drop_last()) + if fx.last() is Reply { 1nat } else { 0nat }
    }
}

/// Refuse the call: answer with `msg` and go idle.
pub open spec fn refuse(a: AgentView, msg: Seq<char>) -> (AgentView, Seq<EffectView>) {
    (AgentView { phase: PhaseView::Idle, ..a }, seq![EffectView::Reply(ReplyView::Error(msg))])
}

/// The first `n` characters of `s` (all of them when shorter).
pub open spec fn first_chars(s: Seq<char>, n: nat) -> Seq<char> {
    if s.len() > n {
        s.take(n as int)
    } else {
        s
    }
}

/// How a call starts, given (for `key`) what the combo parsed to.
pub open spec fn start_spec(
    a: AgentView,
    c: CommandView,
    now: u64,
    state: Seq<char>,
    size: Seq<char>,
    parsed: Result<(Seq<char>, Mods), Seq<char>>,
) -> (AgentView, Seq<EffectView>) {
    match c {
        CommandView::Observe => (
            AgentView { phase: PhaseView::Idle, ..a },
            seq![EffectView::Reply(ReplyView::Text(observation_spec(a.app_name, size, a.widgets, a.blocked, state)))],
        ),
        CommandView::Screenshot { path } => (
            AgentView { phase: PhaseView::Shot { path, since: now }, ..a },
            seq![EffectView::Screenshot],
        ),
        CommandView::Click { label, nth } => match find_spec(a.widgets, label, nth, None) {
            Err(e) => refuse(a, e),
            Ok(i) => {
                let w = a.widgets[i as int];
                if blocked_label(a.blocked, w.label@) {
                    refuse(a, blocked_message_spec(w.label@))
                } else if !w.enabled {
                    refuse(a, "`"@ + w.label@ + "` is disabled right now"@)
                } else {
                    (
                        AgentView {
                            phase: PhaseView::Move { next: NextView::Click },
                            last_action: Some("CLICK ▸ "@ + w.label@),
                            ..a
                        },
                        seq![EffectView::Glide(i)],
                    )
                }
            },
        },
        CommandView::Type { text, label, submit } => {
            if submit && a.blocked.len() > 0 {
                refuse(a, blocked_message_spec("Enter"@))
            } else {
                let b = AgentView { last_action: Some("TYPE ▸ "@ + first_chars(text, 24)), ..a };
                match label {
                    Some(l) => match find_spec(a.widgets, l, 1, Some("input"@)) {
                        Err(e) => refuse(b, e),
                        Ok(i) => (
                            AgentView {
                                phase: PhaseView::Move { next: NextView::Focus { chars: text, submit } },
                                ..b
                            },
                            seq![EffectView::Glide(i)],
                        ),
                    },
                    None => (
                        AgentView { phase: PhaseView::Type { chars: text, next_at: now, submit }, ..b },
                        seq![EffectView::Touch],
                    ),
                }
            }
        },
        CommandView::Key { combo, repeat } => match parsed {
            Err(e) => refuse(a, e),
            Ok((key, mods)) => {
                if key == "Enter"@ && a.blocked.len() > 0 {
                    refuse(a, blocked_message_spec("Enter"@))
                } else {
                    (
                        AgentView {
                            phase: PhaseView::Keys { key, mods, left: repeat, release: false },
                            last_action: Some("KEY ▸ "@ + to_uppercase(combo)),
                            ..a
                        },
                        seq![EffectView::Touch],
                    )
                }
            },
        },
        CommandView::Wait { ms } => (
            AgentView { phase: PhaseView::Wait { until: later(now, ms) }, ..a },
            seq![],
        ),
        CommandView::Tool { name, args } => {
            if !a.tools.contains(name) {
                refuse(a, "unknown tool `"@ + name + "`"@)
            } else {
                (
                    AgentView {
                        phase: PhaseView::Tool { call: Some((name, args)) },
                        last_action: Some("TOOL ▸ "@ + to_uppercase(name)),
                        ..a
                    },
                    seq![EffectView::Touch],
                )
            }
        },
    }
}

/// `b` and `fx` are how call `c` starts from `a`: for `key`, with the combo parsed as
/// [`keys::parse_combo`] parses it.
pub open spec fn start_post(
    a: AgentView,
    c: CommandView,
    now: u64,
    state: Seq<char>,
    size: Seq<char>,
    b: AgentView,
    fx: Seq<EffectView>,
) -> bool {
    match c {
        CommandView::Key { combo, .. } => exists|p: Result<(Seq<char>, Mods), Seq<char>>|
            #[trigger] combo_result(combo, a.mac, p) && (b, fx) == start_spec(a, c, now, state, size, p),
        _ => (b, fx) == start_spec(a, c, now, state, size, Err(Seq::empty())),
    }
}

/// The text that answers a settled call: the app tool's text (if any) ahead of the
/// observation.
pub open spec fn settled_text(a: AgentView, state: Seq<char>, size: Seq<char>) -> Seq<char> {
    let obs = observation_spec(a.app_name, size, a.widgets, a.blocked, state);
    match a.tool_text {
        Some(t) => t + "\n\n"@ + obs,
        None => obs,
    }
}

pub struct ShotView {
    pub png: Seq<u8>,
    pub width: nat,
    pub height: nat,
    pub saved: Option<Result<(), Seq<char>>>,
}

pub open spec fn saved_view(o: Option<Result<(), String>>) -> Option<Result<(), Seq<char>>> {
    match o {
        Some(Ok(())) => Some(Ok(())),
        Some(Err(e)) => Some(Err(e@)),
        None => None,
    }
}

pub open spec fn shot_opt_view(o: Option<Shot>) -> Option<ShotView> {
    match o {
        Some(s) => Some(shot_view(s)),
        None => None,
    }
}

pub open spec fn shot_view(s: Shot) -> ShotView {
    ShotView {
        png: s.png@,
        width: s.width as nat,
        height: s.height as nat,
        saved: saved_view(s.saved),
    }
}

/// The text beside a screenshot: its size, and where it was saved (or why it was not).
pub open spec fn shot_text(s: ShotView, path: Option<Seq<char>>) -> Seq<char> {
    let size = "screenshot "@ + decimal(s.width) + "x"@ + decimal(s.height) + " px"@;
    match (path, s.saved) {
        (Some(p), Some(Ok(()))) => size + " :: saved to "@ + p,
        (Some(p), Some(Err(e))) => size + " :: could not save to "@ + p + ": "@ + e,
        _ => size,
    }
}

/// The character typed next.
pub open spec fn next_char(chars: Seq<char>) -> char {
    chars[0]
}

/// One frame of typing: the next character when its time has come; when all are typed,
/// Enter (with `submit`) or settling.
pub open spec fn type_step(a: AgentView, now: u64, chars: Seq<char>, next_at: u64, submit: bool) -> (AgentView, Seq<EffectView>) {
    let typed = now >= next_at && chars.len() > 0;
    let rest = if typed { chars.drop_first() } else { chars };
    let next = if typed { later(now, CHAR_DELAY_MS as nat) } else { next_at };
    let fx = if typed {
        seq![EffectView::Touch, EffectView::Char(next_char(chars))]
    } else {
        seq![EffectView::Touch]
    };
    let phase = if rest.len() == 0 && now >= next {
        if submit {
            PhaseView::Keys { key: "Enter"@, mods: keys::no_mods(), left: 1, release: false }
        } else {
            PhaseView::Settle { frames: SETTLE_FRAMES as nat }
        }
    } else {
        PhaseView::Type { chars: rest, next_at: next, submit }
    };
    (AgentView { phase, ..a }, fx)
}

/// One frame of the call in flight.
pub open spec fn tick_spec(
    a: AgentView,
    now: u64,
    state: Option<Seq<char>>,
    size: Seq<char>,
    arrived: bool,
    shot: Option<ShotView>,
) -> (AgentView, Seq<EffectView>) {
    match a.phase {
        PhaseView::Idle => (a, seq![]),
        PhaseView::Move { next } => {
            if !arrived {
                (a, seq![EffectView::Touch])
            } else {
                match next {
                    NextView::Click => (
                        AgentView { phase: PhaseView::Settle { frames: SETTLE_FRAMES as nat }, ..a },
                        seq![EffectView::Touch, EffectView::Click, EffectView::Flash],
                    ),
                    NextView::Focus { chars, submit } => (
                        AgentView {
                            phase: PhaseView::Type { chars, next_at: later(now, CHAR_DELAY_MS as nat), submit },
                            ..a
                        },
                        seq![EffectView::Touch, EffectView::Focus, EffectView::Flash],
                    ),
                    NextView::Flash => (
                        AgentView { phase: PhaseView::Settle { frames: SETTLE_FRAMES as nat }, ..a },
                        seq![EffectView::Touch, EffectView::Flash],
                    ),
                }
            }
        },
        PhaseView::Type { chars, next_at, submit } => type_step(a, now, chars, next_at, submit),
        PhaseView::Keys { key, mods, left, release } => {
            if release {
                (
                    AgentView { phase: PhaseView::Keys { key, mods, left, release: false }, ..a },
                    seq![EffectView::Touch, EffectView::KeyUp { key, mods }],
                )
            } else if left > 0 {
                (
                    AgentView {
                        phase: PhaseView::Keys { key, mods, left: (left - 1) as nat, release: true },
                        ..a
                    },
                    seq![EffectView::Touch, EffectView::KeyDown { key, mods }],
                )
            } else {
                (
                    AgentView { phase: PhaseView::Settle { frames: SETTLE_FRAMES as nat }, ..a },
                    seq![EffectView::Touch],
                )
            }
        },
        PhaseView::Settle { frames } => {
            if frames > 0 {
                (AgentView { phase: PhaseView::Settle { frames: (frames - 1) as nat }, ..a }, seq![])
            } else {
                match state {
                    Some(s) => (
                        AgentView { phase: PhaseView::Idle, tool_text: None, ..a },
                        seq![EffectView::Reply(ReplyView::Text(settled_text(a, s, size)))],
                    ),
                    None => (a, seq![]),
                }
            }
        },
        PhaseView::Tool { .. } => (a, seq![]),
        PhaseView::Point { label, frames } => match find_spec(a.widgets, label, 1, None) {
            Ok(i) => (
                AgentView { phase: PhaseView::Move { next: NextView::Flash }, ..a },
                seq![EffectView::Glide(i)],
            ),
            Err(_) => {
                if frames > 0 {
                    (AgentView { phase: PhaseView::Point { label, frames: (frames - 1) as nat }, ..a }, seq![])
                } else {
                    (AgentView { phase: PhaseView::Settle { frames: SETTLE_FRAMES as nat }, ..a }, seq![])
                }
            },
        },
        PhaseView::Shot { path, since } => match shot {
            Some(s) => (
                AgentView { phase: PhaseView::Idle, ..a },
                seq![EffectView::Reply(ReplyView::Image { png: s.png, text: shot_text(s, path) })],
            ),
            None => {
                if now > since + SHOT_TIMEOUT_MS {
                    refuse(a, "no screenshot arrived (the window may be hidden)"@)
                } else {
                    (a, seq![])
                }
            },
        },
        PhaseView::Wait { until } => {
            if now >= until {
                (AgentView { phase: PhaseView::Settle { frames: 1 }, ..a }, seq![])
            } else {
                (a, seq![])
            }
        },
    }
}


pub open spec fn parsed_view(r: Result<(String, Mods), String>) -> Result<(Seq<char>, Mods), Seq<char>> {
    match r {
        Ok((k, m)) => Ok((k@, m)),
        Err(e) => Err(e@),
    }
}

fn vec_of1(e: Effect) -> (r: Vec<Effect>)
    ensures
        effect_views(r@) == seq![e@],
{
    let mut r: Vec<Effect> = Vec::new();
    r.push(e);
    assert(effect_views(r@) =~= seq![e@]);
    r
}

fn vec_of2(e: Effect, f: Effect) -> (r: Vec<Effect>)
    ensures
        effect_views(r@) == seq![e@, f@],
{
    let mut r: Vec<Effect> = Vec::new();
    r.push(e);
    r.push(f);
    assert(effect_views(r@) =~= seq![e@, f@]);
    r
}

/// `r` holds the same characters as `s`.
fn string_from(s: &Vec<char>) -> (r: String)
    ensures
        r@ == s@,
{
    string_of(s.as_slice())
}

/// The answer effect with an error text.
fn error_reply(msg: String) -> (r: Effect)
    ensures
        r@ == EffectView::Reply(ReplyView::Error(msg@)),
{
    Effect::Reply(Reply::Error(msg))
}

impl Agent {
    /// An idle agent for the app called `app_name`; `mac` selects the macOS meaning of
    /// `cmd` / `ctrl` in key combos.
    pub fn new(app_name: &str, mac: bool) -> (r: Self)
        ensures
            r@ == (AgentView {
                app_name: app_name@,
                mac,
                phase: PhaseView::Idle,
                widgets: Seq::empty(),
                blocked: Seq::empty(),
                tools: Seq::empty(),
                last_action: None,
                tool_text: None,
            }),
    {
        let r = Agent {
            app_name: string_of(chars_of(app_name).as_slice()),
            mac,
            phase: Phase::Idle,
            widgets: Vec::new(),
            blocked: Vec::new(),
            tools: Vec::new(),
            last_action: None,
            tool_text: None,
        };
        assert(r@.blocked =~= Seq::<Seq<char>>::empty());
        assert(r@.tools =~= Seq::<Seq<char>>::empty());
        r
    }

    /// The names of the app's own MCP tools (the only app tools a call may name).
    pub fn set_tools(&mut self, names: Vec<String>)
        ensures
            final(self)@ == (AgentView { tools: string_views(names@), ..old(self)@ }),
    {
        self.tools = names;
    }

    /// The names of the app's own tools.
    pub fn tools(&self) -> (r: &Vec<String>)
        ensures
            string_views(r@) == self@.tools,
    {
        &self.tools
    }

    /// The app-defined tool call waiting for the app, if any. Handle it and call
    /// [`Agent::finish_tool`].
    pub fn take_tool(&mut self) -> (r: Option<ToolCall>)
        ensures
            match old(self)@.phase {
                PhaseView::Tool { call } => {
                    &&& final(self)@ == (AgentView { phase: PhaseView::Tool { call: None }, ..old(self)@ })
                    &&& match r {
                        Some(c) => call == Some((c.name@, c.args)),
                        None => call is None,
                    }
                },
                _ => final(self)@ == old(self)@ && r is None,
            },
    {
        match &mut self.phase {
            Phase::Tool { call } => call.take(),
            _ => None,
        }
    }

    /// Answer the tool call from [`Agent::take_tool`]: `Ok(text)` is returned ahead of the
    /// observation once the app has settled; `Err` is returned at once (the reply comes back
    /// here). `focus` names the widget the tool touched: the cursor flies there and flashes it.
    pub fn finish_tool(&mut self, result: Result<String, String>, focus: Option<&str>) -> (r: Option<Reply>)
        ensures
            match old(self)@.phase {
                PhaseView::Tool { .. } => match result {
                    Ok(text) => r is None && final(self)@ == (AgentView {
                        tool_text: Some(text@),
                        phase: match focus {
                            Some(l) => PhaseView::Point { label: l@, frames: POINT_FRAMES as nat },
                            None => PhaseView::Settle { frames: SETTLE_FRAMES as nat },
                        },
                        ..old(self)@
                    }),
                    Err(e) => r matches Some(x) && x@ == ReplyView::Error(e@)
                        && final(self)@ == (AgentView { phase: PhaseView::Idle, ..old(self)@ }),
                },
                _ => r is None && final(self)@ == old(self)@,
            },
    {
        if !matches!(self.phase, Phase::Tool { .. }) {
            return None;
        }
        match result {
            Ok(text) => {
                self.tool_text = Some(text);
                self.phase = match focus {
                    Some(label) => Phase::Point {
                        label: string_of(chars_of(label).as_slice()),
                        frames: POINT_FRAMES,
                    },
                    None => Phase::Settle { frames: SETTLE_FRAMES },
                };
                None
            },
            Err(e) => {
                self.phase = Phase::Idle;
                Some(Reply::Error(e))
            },
        }
    }

    /// Labels the agent must not click (and `Enter` is refused while any are set): the app
    /// passes its confirmation verb while a confirmation dialog is open and the "agent may
    /// confirm" setting is off. Set every frame, before [`Agent::tick`].
    pub fn set_blocked(&mut self, labels: Vec<String>)
        ensures
            final(self)@ == (AgentView { blocked: string_views(labels@), ..old(self)@ }),
    {
        self.blocked = labels;
    }

    /// `label` is reserved for the human (ASCII case ignored).
    pub fn is_blocked(&self, label: &str) -> (r: bool)
        ensures
            r == blocked_label(self@.blocked, label@),
    {
        is_blocked_in(self.blocked.as_slice(), label)
    }

    /// The refusal for `what` while a confirmation is reserved for the human.
    pub fn blocked_message(&self, what: &str) -> (r: String)
        ensures
            r@ == blocked_message_spec(what@),
    {
        blocked_message_text(what)
    }

    /// The last action, as shown beside the cursor (`CLICK ▸ REFRESH`).
    pub fn last_action(&self) -> (r: Option<String>)
        ensures
            opt_view(r) == self@.last_action,
    {
        match &self.last_action {
            Some(a) => Some(string_of(chars_of(a.as_str()).as_slice())),
            None => None,
        }
    }

    /// Widgets seen in the last complete frame.
    pub fn widgets(&self) -> (r: &Vec<Widget>)
        ensures
            r@ == self@.widgets,
    {
        &self.widgets
    }

    /// The widgets registered during the frame just drawn; an empty list (a frame that drew
    /// nothing) keeps the previous one.
    pub fn set_widgets(&mut self, taken: Vec<Widget>)
        ensures
            final(self)@ == (AgentView {
                widgets: if taken@.len() > 0 { taken@ } else { old(self)@.widgets },
                ..old(self)@
            }),
    {
        if taken.len() > 0 {
            self.widgets = taken;
        }
    }

    /// Forget the widgets (the interface is off).
    pub fn clear_widgets(&mut self)
        ensures
            final(self)@ == (AgentView { widgets: Seq::empty(), ..old(self)@ }),
    {
        self.widgets = Vec::new();
    }

    /// A call is in flight.
    pub fn busy(&self) -> (r: bool)
        ensures
            r == !(self@.phase is Idle),
    {
        !matches!(self.phase, Phase::Idle)
    }

    /// The app should compute its state summary this frame: a call is queued (`pending`) or
    /// finishing.
    pub fn wants_state(&self, pending: usize) -> (r: bool)
        ensures
            r == (pending > 0 || self@.phase is Settle || self@.phase is Wait),
    {
        pending > 0 || matches!(self.phase, Phase::Settle { .. }) || matches!(self.phase, Phase::Wait { .. })
    }

    /// The next queued call may start now: nothing is in flight, one is queued and the app
    /// supplied its state summary.
    pub fn takes_request(&self, pending: usize, has_state: bool) -> (r: bool)
        ensures
            r == (self@.phase is Idle && pending > 0 && has_state),
    {
        matches!(self.phase, Phase::Idle) && pending > 0 && has_state
    }

    /// Where the screenshot being waited for should be saved.
    pub fn shot_path(&self) -> (r: Option<String>)
        ensures
            match self@.phase {
                PhaseView::Shot { path, .. } => opt_view(r) == path,
                _ => r is None,
            },
    {
        match &self.phase {
            Phase::Shot { path: Some(p), .. } => Some(string_of(chars_of(p.as_str()).as_slice())),
            _ => None,
        }
    }

    /// Exact label, then ASCII case-insensitive, then substring; with `prefer_role`, widgets
    /// of that role first (so `type` finds the input `FILTER` before a button `Filter`). The
    /// index of hit `nth` (from 1) in [`Agent::widgets`], or why there is none.
    pub fn find(&self, label: &str, nth: usize, prefer_role: Option<&str>) -> (r: Result<usize, String>)
        ensures
            match r {
                Ok(i) => find_spec(self@.widgets, label@, nth as nat, match prefer_role { Some(s) => Some(s@), None => None }) == Ok::<usize, Seq<char>>(i),
                Err(e) => find_spec(self@.widgets, label@, nth as nat, match prefer_role { Some(s) => Some(s@), None => None }) == Err::<usize, Seq<char>>(e@),
            },
            r matches Ok(i) ==> i < self@.widgets.len(),
    {
        find_in(self.widgets.as_slice(), label, nth, prefer_role)
    }

    /// The observation for the app's state summary `state` in a window of `size` (`WxH`).
    pub fn observation(&self, state: &str, size: &str) -> (r: String)
        ensures
            r@ == observation_spec(self@.app_name, size@, self@.widgets, self@.blocked, state@),
    {
        observation_text(self.app_name.as_str(), size, self.widgets.as_slice(), self.blocked.as_slice(), state)
    }

    /// One line for the settings window, from the server's state.
    pub fn status_line(&self, server_error: Option<&str>, server: Option<&ServerStatus>) -> (r: String)
        ensures
            r@ == status_line_spec(
                match server_error { Some(e) => Some(e@), None => None },
                match server { Some(s) => Some((s.clients as nat, s.calls as nat, s.file@)), None => None },
                self@.last_action,
            ),
    {
        match &self.last_action {
            Some(a) => status_line_text(server_error, server, Some(a.as_str())),
            None => status_line_text(server_error, server, None),
        }
    }

    /// Cancel whatever is in flight; the answer owed to it comes back (`why`, as an error).
    pub fn abort(&mut self, why: &str) -> (r: Option<Reply>)
        ensures
            final(self)@ == (AgentView { phase: PhaseView::Idle, tool_text: None, ..old(self)@ }),
            match r {
                Some(x) => !(old(self)@.phase is Idle) && x@ == ReplyView::Error(why@),
                None => old(self)@.phase is Idle,
            },
    {
        let busy = !matches!(self.phase, Phase::Idle);
        self.phase = Phase::Idle;
        self.tool_text = None;
        if busy {
            Some(Reply::Error(string_of(chars_of(why).as_slice())))
        } else {
            None
        }
    }
}


impl Agent {
    /// Start call `cmd` (nothing is in flight): refuse it with an answer, or set the phase
    /// that carries it out. `state` is the app's summary, `size` the window's (`WxH`).
    pub fn start(&mut self, cmd: Command, now: u64, state: &str, size: &str) -> (r: Vec<Effect>)
        requires
            old(self)@.phase is Idle,
        ensures
            start_post(old(self)@, cmd@, now, state@, size@, final(self)@, effect_views(r@)),
    {
        let ghost a = self@;
        let ghost c = cmd@;
        let mut fx: Vec<Effect> = Vec::new();
        match cmd {
            Command::Observe => {
                let t = self.observation(state, size);
                fx.push(Effect::Reply(Reply::Text(t)));
                assert(effect_views(fx@) =~= start_spec(a, c, now, state@, size@, Err(Seq::empty())).1);
            },
            Command::Screenshot { path } => {
                self.phase = Phase::Shot { path, since: now };
                fx.push(Effect::Screenshot);
                assert(effect_views(fx@) =~= start_spec(a, c, now, state@, size@, Err(Seq::empty())).1);
            },
            Command::Click { label, nth } => {
                match find_in(self.widgets.as_slice(), label.as_str(), nth, None) {
                    Err(e) => {
                        fx.push(error_reply(e));
                    },
                    Ok(i) => {
                        let blocked = is_blocked_in(self.blocked.as_slice(), self.widgets[i].label.as_str());
                        if blocked {
                            let m = blocked_message_text(self.widgets[i].label.as_str());
                            fx.push(error_reply(m));
                        } else if !self.widgets[i].enabled {
                            let mut t: Vec<char> = Vec::new();
                            push_str(&mut t, "`");
                            push_str(&mut t, self.widgets[i].label.as_str());
                            push_str(&mut t, "` is disabled right now");
                            fx.push(error_reply(string_from(&t)));
                        } else {
                            let mut t: Vec<char> = Vec::new();
                            push_str(&mut t, "CLICK ▸ ");
                            push_str(&mut t, self.widgets[i].label.as_str());
                            self.last_action = Some(string_from(&t));
                            self.phase = Phase::Move { next: Next::Click };
                            fx.push(Effect::Glide(i));
                        }
                    },
                }
                assert(effect_views(fx@) =~= start_spec(a, c, now, state@, size@, Err(Seq::empty())).1);
            },
            Command::Type { text, label, submit } => {
                if submit && self.blocked.len() > 0 {
                    fx.push(error_reply(blocked_message_text("Enter")));
                } else {
                    let chars = chars_of(text.as_str());
                    let n: usize = if chars.len() > 24 { 24 } else { chars.len() };
                    let shown = slice_vec(chars.as_slice(), 0, n);
                    let mut t: Vec<char> = Vec::new();
                    push_str(&mut t, "TYPE ▸ ");
                    push_all(&mut t, shown.as_slice());
                    self.last_action = Some(string_from(&t));
                    proof {
                        assert(shown@ =~= first_chars(text@, 24));
                    }
                    match label {
                        Some(l) => match find_in(self.widgets.as_slice(), l.as_str(), 1, Some("input")) {
                            Err(e) => {
                                fx.push(error_reply(e));
                            },
                            Ok(i) => {
                                self.phase = Phase::Move { next: Next::Focus { chars, submit } };
                                fx.push(Effect::Glide(i));
                            },
                        },
                        None => {
                            self.phase = Phase::Type { chars, at: 0, next_at: now, submit };
                            fx.push(Effect::Touch);
                            assert(chars@.skip(0) =~= chars@);
                            assert(self@.phase == PhaseView::Type { chars: text@, next_at: now, submit });
                        },
                    }
                }
                assert(effect_views(fx@) =~= start_spec(a, c, now, state@, size@, Err(Seq::empty())).1);
            },
            Command::Key { combo, repeat } => {
                let parsed = parse_combo(combo.as_str(), self.mac);
                let ghost p = parsed_view(parsed);
                assert(combo_result(combo@, a.mac, p));
                match parsed {
                    Err(e) => {
                        fx.push(error_reply(e));
                    },
                    Ok((key, mods)) => {
                        let is_enter = seq_eq(chars_of(key.as_str()).as_slice(), chars_of("Enter").as_slice());
                        if is_enter && self.blocked.len() > 0 {
                            fx.push(error_reply(blocked_message_text("Enter")));
                        } else {
                            let up = uppercase(combo.as_str());
                            let mut t: Vec<char> = Vec::new();
                            push_str(&mut t, "KEY ▸ ");
                            push_str(&mut t, up.as_str());
                            self.last_action = Some(string_from(&t));
                            self.phase = Phase::Keys { key, mods, left: repeat, release: false };
                            fx.push(Effect::Touch);
                        }
                    },
                }
                assert(effect_views(fx@) =~= start_spec(a, c, now, state@, size@, p).1);
                assert((self@, effect_views(fx@)) == start_spec(a, c, now, state@, size@, p));
            },
            Command::Wait { ms } => {
                let until = now.saturating_add(ms);
                self.phase = Phase::Wait { until };
                assert(effect_views(fx@) =~= start_spec(a, c, now, state@, size@, Err(Seq::empty())).1);
            },
            Command::Tool { name, args } => {
                let nv = chars_of(name.as_str());
                let mut known = false;
                let mut j: usize = 0;
                while j < self.tools.len()
                    invariant
                        j <= self.tools.len(),
                        nv@ == name@,
                        self@ == a,
                        known == exists|k: int| 0 <= k < j && string_views(self.tools@)[k] == name@,
                    decreases self.tools.len() - j,
                {
                    let eq = seq_eq(chars_of(self.tools[j].as_str()).as_slice(), nv.as_slice());
                    assert(string_views(self.tools@)[j as int] == self.tools@[j as int]@);
                    if eq {
                        known = true;
                    }
                    j = j + 1;
                    assert(known == exists|k: int| 0 <= k < j && string_views(self.tools@)[k] == name@) by {
                        if !eq && !known {
                            assert forall|k: int| 0 <= k < j implies string_views(self.tools@)[k] != name@ by {
                                if k < j - 1 {
                                } else {
                                    assert(k == j - 1);
                                }
                            }
                        }
                    }
                }
                proof {
                    if known {
                        let k = choose|k: int| 0 <= k < j && string_views(self.tools@)[k] == name@;
                        assert(a.tools[k] == name@);
                    } else {
                        assert forall|k: int| 0 <= k < a.tools.len() implies a.tools[k] != name@ by {
                            assert(string_views(self.tools@)[k] == a.tools[k]);
                        }
                    }
                }
                if !known {
                    let mut t: Vec<char> = Vec::new();
                    push_str(&mut t, "unknown tool `");
                    push_all(&mut t, nv.as_slice());
                    push_str(&mut t, "`");
                    fx.push(error_reply(string_from(&t)));
                } else {
                    let up = uppercase(name.as_str());
                    let mut t: Vec<char> = Vec::new();
                    push_str(&mut t, "TOOL ▸ ");
                    push_str(&mut t, up.as_str());
                    self.last_action = Some(string_from(&t));
                    self.phase = Phase::Tool { call: Some(ToolCall { name, args }) };
                    fx.push(Effect::Touch);
                }
                assert(effect_views(fx@) =~= start_spec(a, c, now, state@, size@, Err(Seq::empty())).1);
            },
        }
        fx
    }
}


/// The text beside a screenshot (see [`shot_text`]).
fn shot_text_exec(width: usize, height: usize, saved: &Option<Result<(), String>>, path: &Option<String>) -> (r: String)
    ensures
        r@ == shot_text(
            ShotView {
                png: Seq::empty(),
                width: width as nat,
                height: height as nat,
                saved: saved_view(*saved),
            },
            opt_view(*path),
        ),
{
    let mut t: Vec<char> = Vec::new();
    push_str(&mut t, "screenshot ");
    crate::fmt::push_decimal(&mut t, width as u64);
    push_str(&mut t, "x");
    crate::fmt::push_decimal(&mut t, height as u64);
    push_str(&mut t, " px");
    match (path, saved) {
        (Some(p), Some(Ok(()))) => {
            push_str(&mut t, " :: saved to ");
            push_str(&mut t, p.as_str());
        },
        (Some(p), Some(Err(e))) => {
            push_str(&mut t, " :: could not save to ");
            push_str(&mut t, p.as_str());
            push_str(&mut t, ": ");
            push_str(&mut t, e.as_str());
        },
        _ => {},
    }
    let ghost want = shot_text(
        ShotView {
            png: Seq::empty(),
            width: width as nat,
            height: height as nat,
            saved: saved_view(*saved),
        },
        opt_view(*path),
    );
    assert(t@ =~= want);
    string_from(&t)
}

impl Agent {
    /// Run one frame of the call in flight (see [`tick_spec`]). Call first thing every frame,
    /// before the app reads input; carry out the effects in order.
    pub fn tick(&mut self, frame: Frame) -> (r: Vec<Effect>)
        ensures
            (final(self)@, effect_views(r@)) == tick_spec(
                old(self)@,
                frame.now,
                opt_view(frame.state),
                frame.size@,
                frame.arrived,
                shot_opt_view(frame.shot),
            ),
    {
        let ghost a = self@;
        let ghost want = tick_spec(
            a,
            frame.now,
            opt_view(frame.state),
            frame.size@,
            frame.arrived,
            shot_opt_view(frame.shot),
        );
        let Frame { now, state, size, arrived, shot } = frame;
        let mut fx: Vec<Effect> = Vec::new();
        let mut phase = Phase::Idle;
        std::mem::swap(&mut phase, &mut self.phase);
        match phase {
            Phase::Idle => {},
            Phase::Move { next } => {
                if !arrived {
                    self.phase = Phase::Move { next };
                    fx.push(Effect::Touch);
                } else {
                    fx.push(Effect::Touch);
                    match next {
                        Next::Click => {
                            self.phase = Phase::Settle { frames: SETTLE_FRAMES };
                            fx.push(Effect::Click);
                            fx.push(Effect::Flash);
                        },
                        Next::Focus { chars, submit } => {
                            let ghost cv = chars@;
                            self.phase = Phase::Type { chars, at: 0, next_at: now.saturating_add(CHAR_DELAY_MS), submit };
                            fx.push(Effect::Focus);
                            fx.push(Effect::Flash);
                            assert(cv.skip(0) =~= cv);
                        },
                        Next::Flash => {
                            self.phase = Phase::Settle { frames: SETTLE_FRAMES };
                            fx.push(Effect::Flash);
                        },
                    }
                }
            },
            Phase::Type { chars, at, next_at, submit } => {
                let ghost rest0 = if (at as int) <= chars@.len() { chars@.skip(at as int) } else { Seq::<char>::empty() };
                assert(rest0.len() > 0 <==> at < chars.len());
                let typed = now >= next_at && at < chars.len();
                let at2: usize = if typed { at + 1 } else { at };
                let next2: u64 = if typed { now.saturating_add(CHAR_DELAY_MS) } else { next_at };
                if typed {
                    let c = chars[at];
                    proof {
                        assert(rest0[0] == c);
                        assert(chars@.skip(at + 1) =~= rest0.drop_first());
                    }
                    fx = vec_of2(Effect::Touch, Effect::Char(c));
                } else {
                    fx = vec_of1(Effect::Touch);
                }
                if at2 >= chars.len() && now >= next2 {
                    if submit {
                        let key = string_of(chars_of("Enter").as_slice());
                        self.phase = Phase::Keys {
                            key,
                            mods: Mods { alt: false, ctrl: false, shift: false, mac_cmd: false, command: false },
                            left: 1,
                            release: false,
                        };
                    } else {
                        self.phase = Phase::Settle { frames: SETTLE_FRAMES };
                    }
                } else {
                    self.phase = Phase::Type { chars, at: at2, next_at: next2, submit };
                }
            },
            Phase::Keys { key, mods, left, release } => {
                fx.push(Effect::Touch);
                if release {
                    let k2 = string_of(chars_of(key.as_str()).as_slice());
                    self.phase = Phase::Keys { key, mods, left, release: false };
                    fx.push(Effect::KeyUp { key: k2, mods });
                } else if left > 0 {
                    let k2 = string_of(chars_of(key.as_str()).as_slice());
                    self.phase = Phase::Keys { key, mods, left: left - 1, release: true };
                    fx.push(Effect::KeyDown { key: k2, mods });
                } else {
                    self.phase = Phase::Settle { frames: SETTLE_FRAMES };
                }
            },
            Phase::Settle { frames } => {
                if frames > 0 {
                    self.phase = Phase::Settle { frames: frames - 1 };
                } else {
                    match state {
                        Some(st) => {
                            let obs = self.observation(st.as_str(), size.as_str());
                            let mut t: Vec<char> = Vec::new();
                            match &self.tool_text {
                                Some(prefix) => {
                                    push_str(&mut t, prefix.as_str());
                                    push_str(&mut t, "\n\n");
                                },
                                None => {},
                            }
                            push_str(&mut t, obs.as_str());
                            assert(t@ =~= settled_text(a, st@, size@));
                            self.tool_text = None;
                            fx.push(Effect::Reply(Reply::Text(string_from(&t))));
                        },
                        None => {
                            self.phase = Phase::Settle { frames };
                        },
                    }
                }
            },
            Phase::Tool { call } => {
                self.phase = Phase::Tool { call };
            },
            Phase::Point { label, frames } => {
                match find_in(self.widgets.as_slice(), label.as_str(), 1, None) {
                    Ok(i) => {
                        self.phase = Phase::Move { next: Next::Flash };
                        fx.push(Effect::Glide(i));
                    },
                    Err(_) => {
                        if frames > 0 {
                            self.phase = Phase::Point { label, frames: frames - 1 };
                        } else {
                            self.phase = Phase::Settle { frames: SETTLE_FRAMES };
                        }
                    },
                }
            },
            Phase::Shot { path, since } => {
                match shot {
                    Some(s) => {
                        let text = shot_text_exec(s.width, s.height, &s.saved, &path);
                        fx.push(Effect::Reply(Reply::Image { png: s.png, text }));
                    },
                    None => {
                        if now > since && now - since > SHOT_TIMEOUT_MS {
                            let m = string_of(chars_of("no screenshot arrived (the window may be hidden)").as_slice());
                            fx.push(error_reply(m));
                        } else {
                            self.phase = Phase::Shot { path, since };
                        }
                    },
                }
            },
            Phase::Wait { until } => {
                if now >= until {
                    self.phase = Phase::Settle { frames: 1 };
                } else {
                    self.phase = Phase::Wait { until };
                }
            },
        }
        assert(effect_views(fx@) =~= want.1);
        fx
    }
}


// ------------------------------------------------------------------------------- laws

proof fn lemma_replies_small(fx: Seq<EffectView>)
    ensures
        fx.len() == 0 ==> replies(fx) == 0,
        fx.len() == 1 ==> replies(fx) == if fx[0] is Reply { 1nat } else { 0nat },
        fx.len() == 2 ==> replies(fx) == (if fx[0] is Reply { 1nat } else { 0nat }) + (if fx[1] is Reply { 1nat } else { 0nat }),
        fx.len() == 3 ==> replies(fx) == (if fx[0] is Reply { 1nat } else { 0nat }) + (if fx[1] is Reply { 1nat } else { 0nat }) + (if fx[2] is Reply { 1nat } else { 0nat }),
{
    reveal_with_fuel(replies, 4);
    if fx.len() == 2 {
        assert(fx.drop_last() =~= seq![fx[0]]);
    }
    if fx.len() == 3 {
        assert(fx.drop_last() =~= seq![fx[0], fx[1]]);
        assert(fx.drop_last().drop_last() =~= seq![fx[0]]);
    }
}

/// A call that starts is either answered at once (exactly one answer, and nothing is left in
/// flight) or left in flight unanswered.
pub proof fn law_start_answers_or_proceeds(
    a: AgentView,
    c: CommandView,
    now: u64,
    state: Seq<char>,
    size: Seq<char>,
    b: AgentView,
    fx: Seq<EffectView>,
)
    requires
        start_post(a, c, now, state, size, b, fx),
    ensures
        replies(fx) <= 1,
        (b.phase is Idle) <==> (replies(fx) == 1),
{
    lemma_replies_small(fx);
}

/// A frame leaves an idle agent alone; for a call in flight it gives at most one answer, and
/// it answers exactly when the call ends.
pub proof fn law_tick_answers_when_done(
    a: AgentView,
    now: u64,
    state: Option<Seq<char>>,
    size: Seq<char>,
    arrived: bool,
    shot: Option<ShotView>,
)
    ensures
        ({
            let (b, fx) = tick_spec(a, now, state, size, arrived, shot);
            &&& a.phase is Idle ==> b == a && fx.len() == 0
            &&& !(a.phase is Idle) ==> replies(fx) <= 1 && ((b.phase is Idle) <==> (replies(fx) == 1))
        }),
{
    let (b, fx) = tick_spec(a, now, state, size, arrived, shot);
    lemma_replies_small(fx);
    match a.phase {
        PhaseView::Idle => {},
        PhaseView::Move { next } => {
            assert(replies(fx) == 0 && !(b.phase is Idle));
        },
        PhaseView::Type { chars, next_at, submit } => {
            assert(replies(fx) == 0 && !(b.phase is Idle));
        },
        PhaseView::Keys { .. } => {
            assert(replies(fx) == 0 && !(b.phase is Idle));
        },
        PhaseView::Settle { frames } => {
            if frames == 0 && state is Some {
                assert(replies(fx) == 1 && b.phase is Idle);
            } else {
                assert(replies(fx) == 0 && !(b.phase is Idle));
            }
        },
        PhaseView::Tool { .. } => {
            assert(replies(fx) == 0 && !(b.phase is Idle));
        },
        PhaseView::Point { label, frames } => {
            assert(replies(fx) == 0 && !(b.phase is Idle));
        },
        PhaseView::Shot { path, since } => {
            if shot is Some || now > since + SHOT_TIMEOUT_MS {
                assert(replies(fx) == 1 && b.phase is Idle);
            } else {
                assert(replies(fx) == 0 && !(b.phase is Idle));
            }
        },
        PhaseView::Wait { .. } => {
            assert(replies(fx) == 0 && !(b.phase is Idle));
        },
    }
}

/// A click never heads for a widget reserved for the human, nor for a disabled one.
pub proof fn law_click_respects_reserved_and_disabled(
    a: AgentView,
    c: CommandView,
    now: u64,
    state: Seq<char>,
    size: Seq<char>,
    b: AgentView,
    fx: Seq<EffectView>,
    i: usize,
)
    requires
        start_post(a, c, now, state, size, b, fx),
        b.phase == (PhaseView::Move { next: NextView::Click }),
        fx.contains(EffectView::Glide(i)),
    ensures
        i < a.widgets.len(),
        !blocked_label(a.blocked, a.widgets[i as int].label@),
        a.widgets[i as int].enabled,
{
    match c {
        CommandView::Click { label, nth } => {
            lemma_find_in_range(a.widgets, label, nth, None);
            assert(fx[0] == EffectView::Glide(i));
        },
        _ => {},
    }
}

/// While a confirmation is reserved for the human, no call starts that would press Enter.
pub proof fn law_no_enter_while_reserved(
    a: AgentView,
    c: CommandView,
    now: u64,
    state: Seq<char>,
    size: Seq<char>,
    b: AgentView,
    fx: Seq<EffectView>,
)
    requires
        start_post(a, c, now, state, size, b, fx),
        a.blocked.len() > 0,
    ensures
        !(b.phase matches PhaseView::Keys { key, .. } && key == "Enter"@),
        !(b.phase matches PhaseView::Type { submit, .. } && submit),
        !(b.phase matches PhaseView::Move { next: NextView::Focus { submit, .. } } && submit),
{
}

proof fn lemma_keep_sound(ws: Seq<Widget>, from: Seq<usize>, p: spec_fn(Widget) -> bool)
    ensures
        forall|j: int| 0 <= j < keep(ws, from, p).len() ==> p(ws[#[trigger] keep(ws, from, p)[j] as int]) && from.contains(keep(ws, from, p)[j]),
    decreases from.len(),
{
    if from.len() > 0 {
        lemma_keep_sound(ws, from.drop_last(), p);
        let r = keep(ws, from.drop_last(), p);
        assert forall|j: int| 0 <= j < r.len() implies from.contains(#[trigger] r[j]) by {
            let k = choose|k: int| 0 <= k < from.drop_last().len() && from.drop_last()[k] == r[j];
            assert(from[k] == r[j]);
        }
        assert(from[from.len() - 1] == from.last());
    }
}

proof fn lemma_find_in_range(ws: Seq<Widget>, label: Seq<char>, nth: nat, prefer: Option<Seq<char>>)
    ensures
        find_spec(ws, label, nth, prefer) matches Ok(i) ==> i < ws.len(),
{
    lemma_hits_addressable(ws, label, prefer);
    let h = hits(ws, label, prefer);
    assert(h == lookup::hits_low(ws, label, prefer, std_lower(), to_lowercase(trim(label))));
    let k: int = if nth == 0 { 0 } else { nth - 1 };
    if k < h.len() {
        assert(h[k] < ws.len());
    }
}

/// Every hit is addressable.
proof fn lemma_hits_addressable(ws: Seq<Widget>, label: Seq<char>, prefer: Option<Seq<char>>)
    ensures
        forall|j: int| 0 <= j < hits(ws, label, prefer).len() ==> addressable(ws).contains(#[trigger] hits(ws, label, prefer)[j]) && hits(ws, label, prefer)[j] < ws.len(),
{
    let pool = addressable(ws);
    let wanted = trim(label);
    let all = indices(ws.len());
    let modal = is_modal(ws);
    lemma_keep_sound(ws, all, |w: Widget| !modal || w.foreground);
    assert forall|j: int| 0 <= j < pool.len() implies #[trigger] pool[j] < ws.len() by {
        let k = choose|k: int| 0 <= k < all.len() && all[k] == pool[j];
    }
    let ps = seq![
        passes(Test::Exact, wanted),
        passes(Test::NoCase, wanted),
        passes(Test::Contains, to_lowercase(wanted)),
    ];
    lemma_tiers_within(ws, pool, wanted);
    match prefer {
        Some(r) => {
            let same = keep(ws, pool, passes(Test::Role, r));
            lemma_keep_sound(ws, pool, passes(Test::Role, r));
            lemma_tiers_within(ws, same, wanted);
            assert forall|j: int| 0 <= j < tiers(ws, same, wanted).len() implies pool.contains(#[trigger] tiers(ws, same, wanted)[j]) by {
                let x = tiers(ws, same, wanted)[j];
                assert(same.contains(x));
                let k = choose|k: int| 0 <= k < same.len() && same[k] == x;
                assert(pool.contains(same[k]));
            }
            assert(passes(Test::Role, r) == passes_low(Test::Role, r, std_lower()));
            assert(tiers(ws, same, wanted) == tiers_low(ws, same, wanted, std_lower(), to_lowercase(trim(label))));
            assert(hits(ws, label, prefer) == if tiers(ws, same, wanted).len() > 0 {
                tiers(ws, same, wanted)
            } else {
                tiers(ws, pool, wanted)
            });
        },
        None => {
            assert(hits(ws, label, prefer) == tiers(ws, pool, wanted));
        },
    }
}

/// The tiers only pick from the pool.
proof fn lemma_tiers_within(ws: Seq<Widget>, pool: Seq<usize>, wanted: Seq<char>)
    ensures
        forall|j: int| 0 <= j < tiers(ws, pool, wanted).len() ==> pool.contains(#[trigger] tiers(ws, pool, wanted)[j]),
{
    lemma_keep_sound(ws, pool, passes(Test::Exact, wanted));
    lemma_keep_sound(ws, pool, passes(Test::NoCase, wanted));
    lemma_keep_sound(ws, pool, passes(Test::Contains, to_lowercase(wanted)));
}

/// While a modal dialog is up, a lookup only ever finds the dialog's own parts.
pub proof fn law_modal_finds_only_its_parts(ws: Seq<Widget>, label: Seq<char>, nth: nat, prefer: Option<Seq<char>>)
    requires
        is_modal(ws),
        find_spec(ws, label, nth, prefer) is Ok,
    ensures
        ({
            let i = find_spec(ws, label, nth, prefer)->Ok_0;
            i < ws.len() && ws[i as int].foreground
        }),
{
    lemma_hits_addressable(ws, label, prefer);
    let all = indices(ws.len());
    lemma_keep_sound(ws, all, |w: Widget| !is_modal(ws) || w.foreground);
    let h = hits(ws, label, prefer);
    let k: int = if nth == 0 { 0 } else { nth - 1 };
    assert(addressable(ws).contains(h[k]));
    let q = choose|q: int| 0 <= q < addressable(ws).len() && addressable(ws)[q] == h[k];
    assert(ws[addressable(ws)[q] as int].foreground);
}

/// A widget whose label is exactly the (trimmed) label asked for always wins over the
/// case-insensitive and substring matches.
pub proof fn law_exact_label_wins(ws: Seq<Widget>, label: Seq<char>, i: usize)
    requires
        addressable(ws).contains(i),
        ws[i as int].label@ == trim(label),
    ensures
        find_spec(ws, label, 1, None) matches Ok(j) && ws[j as int].label@ == trim(label),
{
    let pool = addressable(ws);
    let wanted = trim(label);
    let p = passes(Test::Exact, wanted);
    lemma_keep_complete(ws, pool, p, i);
    lemma_keep_sound(ws, pool, p);
    let a = keep(ws, pool, p);
    assert(a.len() > 0);
    assert(p(ws[a[0] as int]));
}

proof fn lemma_keep_complete(ws: Seq<Widget>, from: Seq<usize>, p: spec_fn(Widget) -> bool, i: usize)
    requires
        from.contains(i),
        p(ws[i as int]),
    ensures
        keep(ws, from, p).contains(i),
    decreases from.len(),
{
    if from.last() == i {
        let r = keep(ws, from.drop_last(), p);
        assert(keep(ws, from, p) == r.push(i));
        assert(keep(ws, from, p)[r.len() as int] == i);
    } else {
        let k = choose|k: int| 0 <= k < from.len() && from[k] == i;
        assert(from.drop_last()[k] == i);
        lemma_keep_complete(ws, from.drop_last(), p, i);
        let r = keep(ws, from.drop_last(), p);
        let q = choose|q: int| 0 <= q < r.len() && r[q] == i;
        assert(keep(ws, from, p)[q] == i);
    }
}

} // verus!
