use fuide::agent::bridge::{forwards, next_attempt, socket_path, went_away, Attempt};
use fuide::agent::lookup::{find_given, find_in, Widget};
use fuide::agent::report::ServerStatus;
use fuide::agent::{instructions, Agent, Command, Effect, Frame, Reply, Shot};

fn widget(role: &str, label: &str, enabled: bool) -> Widget {
    Widget {
        role: role.into(),
        label: label.into(),
        enabled,
        selected: None,
        value: None,
        foreground: false,
        at: "10,10".into(),
    }
}

/// A small app: buttons GO, PURGE (reserved for the human while `guard` is set), LOCKED
/// (disabled), a toggle HIDDEN and an input FILTER.
#[derive(Default)]
struct Demo {
    clicks: u32,
    danger_clicks: u32,
    hidden: bool,
    filter: String,
    focused: bool,
    enter_presses: u32,
    guard: bool,
}

impl Demo {
    fn widgets(&self) -> Vec<Widget> {
        let mut hidden = widget("toggle", "HIDDEN", true);
        hidden.selected = Some(self.hidden);
        let mut filter = widget("input", "FILTER", true);
        filter.value = Some(self.filter.clone());
        vec![
            widget("button", "GO", true),
            widget("button", "PURGE", true),
            widget("button", "LOCKED", false),
            hidden,
            filter,
        ]
    }

    fn state(&self) -> String {
        format!("clicks: {} :: filter: {:?}", self.clicks, self.filter)
    }

    fn blocked(&self) -> Vec<String> {
        if self.guard {
            vec!["PURGE".into()]
        } else {
            Vec::new()
        }
    }

    /// Carry out the agent's effects; the answer, if one came.
    fn apply(&mut self, agent: &Agent, target: &mut Option<String>, fx: Vec<Effect>) -> Option<Reply> {
        let mut answer = None;
        for e in fx {
            match e {
                Effect::Glide(i) => *target = Some(agent.widgets()[i].label.clone()),
                Effect::Click => match target.as_deref() {
                    Some("GO") => self.clicks += 1,
                    Some("PURGE") => self.danger_clicks += 1,
                    Some("HIDDEN") => self.hidden = !self.hidden,
                    _ => {}
                },
                Effect::Focus => self.focused = target.as_deref() == Some("FILTER"),
                Effect::Char('\n') => self.enter_presses += 1,
                Effect::Char(c) => {
                    if self.focused {
                        self.filter.push(c);
                    }
                }
                Effect::KeyDown { key, .. } => {
                    if key == "Enter" {
                        self.enter_presses += 1;
                    }
                }
                Effect::Reply(r) => answer = Some(r),
                _ => {}
            }
        }
        answer
    }
}

/// Start `cmd` and run frames (16 ms apart, the cursor arriving the frame after it starts)
/// until the answer comes.
fn drive(agent: &mut Agent, d: &mut Demo, cmd: Command) -> Reply {
    let mut now: u64 = 1_000;
    let mut target = None;
    agent.set_widgets(d.widgets());
    agent.set_blocked(d.blocked());
    let fx = agent.start(cmd, now, &d.state(), "640x300");
    if let Some(r) = d.apply(agent, &mut target, fx) {
        return r;
    }
    for _ in 0..400 {
        now += 16;
        agent.set_widgets(d.widgets());
        agent.set_blocked(d.blocked());
        let frame = Frame {
            now,
            state: if agent.wants_state(0) { Some(d.state()) } else { None },
            size: "640x300".into(),
            arrived: true,
            shot: None,
        };
        let fx = agent.tick(frame);
        if let Some(r) = d.apply(agent, &mut target, fx) {
            return r;
        }
        if let Some(call) = agent.take_tool() {
            let by = call.args.get("by").and_then(|v| v.as_u64()).unwrap_or(1) as u32;
            d.clicks += by;
            if let Some(r) = agent.finish_tool(Ok(format!("bumped by {by}")), Some("GO")) {
                return r;
            }
        }
    }
    panic!("no reply from the agent")
}

fn text(r: Reply) -> String {
    match r {
        Reply::Text(t) => t,
        other => panic!("expected text, got {other:?}"),
    }
}

fn setup() -> (Agent, Demo) {
    let mut a = Agent::new("Kittest Demo", false);
    a.set_tools(vec!["bump".into()]);
    (a, Demo { guard: true, ..Demo::default() })
}

#[test]
fn observe_lists_widgets_with_roles_and_state() {
    let (mut a, mut d) = setup();
    let t = text(drive(&mut a, &mut d, Command::Observe));
    assert!(t.starts_with("Kittest Demo :: window 640x300\nclicks: 0"), "{t}");
    assert!(t.contains("[button] GO @10,10\n"), "{t}");
    assert!(t.contains("[button] LOCKED (disabled) @"), "{t}");
    assert!(t.contains("[toggle] HIDDEN @"), "{t}");
    assert!(t.contains("[input] FILTER = \"\""), "{t}");
    assert!(t.contains("[button] PURGE (human only)"), "{t}");
    assert!(t.contains("WIDGETS (5)\n"), "{t}");
    assert!(t.ends_with("\nNOTE: PURGE is reserved for the human (Settings → AGENT → CONFIRM DIALOGS).\n"), "{t}");
}

#[test]
fn click_by_label_reaches_the_widget() {
    let (mut a, mut d) = setup();
    let t = text(drive(&mut a, &mut d, Command::Click { label: "go".into(), nth: 1 }));
    assert_eq!(d.clicks, 1);
    assert!(t.contains("clicks: 1"), "observation after the click: {t}");
    assert_eq!(a.last_action().as_deref(), Some("CLICK ▸ GO"));
    let t = text(drive(&mut a, &mut d, Command::Click { label: "HIDDEN".into(), nth: 1 }));
    assert!(d.hidden);
    assert!(t.contains("[toggle] HIDDEN (on)"), "{t}");
}

#[test]
fn disabled_blocked_and_unknown_targets_are_refused() {
    let (mut a, mut d) = setup();
    for (label, needle) in [
        ("LOCKED", "disabled"),
        ("PURGE", "reserved for the human"),
        ("NOPE", "no widget labelled"),
    ] {
        match drive(&mut a, &mut d, Command::Click { label: label.into(), nth: 1 }) {
            Reply::Error(e) => assert!(e.contains(needle), "{label}: {e}"),
            other => panic!("{label}: expected an error, got {other:?}"),
        }
    }
    assert_eq!(d.danger_clicks, 0);
    let r = drive(&mut a, &mut d, Command::Key { combo: "enter".into(), repeat: 1 });
    assert!(matches!(r, Reply::Error(_)));
    let r = drive(&mut a, &mut d, Command::Type { text: "x".into(), label: None, submit: true });
    assert!(matches!(r, Reply::Error(_)));
    assert_eq!(d.enter_presses, 0);
}

#[test]
fn type_focuses_the_input_and_submits() {
    let (mut a, mut d) = setup();
    d.guard = false;
    let t = text(drive(
        &mut a,
        &mut d,
        Command::Type { text: "rip".into(), label: Some("filter".into()), submit: false },
    ));
    assert_eq!(d.filter, "rip");
    assert!(t.contains("[input] FILTER = \"rip\""), "{t}");
    assert_eq!(a.last_action().as_deref(), Some("TYPE ▸ rip"));
    text(drive(&mut a, &mut d, Command::Type { text: "grep".into(), label: None, submit: true }));
    assert_eq!(d.filter, "ripgrep");
    assert!(d.enter_presses >= 1);
}

#[test]
fn keys_and_wait_report_back() {
    let (mut a, mut d) = setup();
    text(drive(&mut a, &mut d, Command::Key { combo: "down".into(), repeat: 3 }));
    assert_eq!(a.last_action().as_deref(), Some("KEY ▸ DOWN"));
    let t = text(drive(&mut a, &mut d, Command::Wait { ms: 50 }));
    assert!(t.contains("WIDGETS ("), "{t}");
}

#[test]
fn app_tools_run_in_the_app_and_point_at_their_widget() {
    let (mut a, mut d) = setup();
    let args: serde_json::Value = serde_json::from_str("{\"by\": 3}").unwrap();
    let t = text(drive(&mut a, &mut d, Command::Tool { name: "bump".into(), args }));
    assert!(t.starts_with("bumped by 3\n\n"), "{t}");
    assert!(t.contains("clicks: 3"), "the observation follows the tool text: {t}");
    assert_eq!(a.last_action().as_deref(), Some("TOOL ▸ BUMP"));
    assert_eq!(d.clicks, 3);
    let r = drive(&mut a, &mut d, Command::Tool { name: "nope".into(), args: serde_json::Value::Null });
    assert!(matches!(r, Reply::Error(e) if e.contains("unknown tool")));
}

#[test]
fn a_failing_app_tool_is_answered_at_once() {
    let (mut a, _) = setup();
    a.start(Command::Tool { name: "bump".into(), args: serde_json::Value::Null }, 0, "", "1x1");
    assert!(a.take_tool().is_some());
    assert!(a.take_tool().is_none());
    assert_eq!(a.finish_tool(Err("boom".into()), None), Some(Reply::Error("boom".into())));
    assert!(!a.busy());
    assert_eq!(a.finish_tool(Ok("late".into()), None), None);
}

#[test]
fn screenshots_come_back_with_their_size_and_where_they_went() {
    let (mut a, _) = setup();
    let fx = a.start(Command::Screenshot { path: Some("/tmp/shot.png".into()) }, 100, "", "1x1");
    assert_eq!(fx, vec![Effect::Screenshot]);
    assert_eq!(a.shot_path().as_deref(), Some("/tmp/shot.png"));
    let shot = Shot { png: b"\x89PNG".to_vec(), width: 320, height: 150, saved: Some(Ok(())) };
    let fx = a.tick(Frame { now: 116, state: None, size: "1x1".into(), arrived: false, shot: Some(shot) });
    assert_eq!(
        fx,
        vec![Effect::Reply(Reply::Image {
            png: b"\x89PNG".to_vec(),
            text: "screenshot 320x150 px :: saved to /tmp/shot.png".into()
        })]
    );
    a.start(Command::Screenshot { path: None }, 200, "", "1x1");
    let wait = Frame { now: 3_200, state: None, size: "1x1".into(), arrived: false, shot: None };
    assert_eq!(a.tick(wait), vec![]);
    let late = Frame { now: 3_201, state: None, size: "1x1".into(), arrived: false, shot: None };
    assert_eq!(
        a.tick(late),
        vec![Effect::Reply(Reply::Error("no screenshot arrived (the window may be hidden)".into()))]
    );
}

#[test]
fn lookup_is_exact_then_case_insensitive_then_substring() {
    let mut a = Agent::new("T", false);
    let w = |label: &str, role: &str, fg: bool| Widget { foreground: fg, ..widget(role, label, true) };
    a.set_widgets(vec![
        w("REFRESH", "button", false),
        w("OUTDATED  3", "item", false),
        w("FILTER", "input", false),
        w("Filter", "button", false),
    ]);
    let label = |a: &Agent, r: Result<usize, String>| a.widgets()[r.unwrap()].label.clone();
    assert_eq!(label(&a, a.find("REFRESH", 1, None)), "REFRESH");
    assert_eq!(label(&a, a.find("outdated", 1, None)), "OUTDATED  3");
    assert_eq!(label(&a, a.find("filter", 1, None)), "FILTER");
    assert_eq!(a.widgets()[a.find("Filter", 1, Some("input")).unwrap()].role, "input");
    assert_eq!(label(&a, a.find("filter", 2, None)), "Filter");
    assert!(a.find("filter", 3, None).unwrap_err().contains("only 2"));
    assert!(a.find("PURGE", 1, None).unwrap_err().contains("no widget"));
    // a modal hides everything else
    let mut ws = a.widgets().clone();
    ws.push(w("CANCEL", "button", true));
    a.set_widgets(ws);
    assert!(a.find("REFRESH", 1, None).is_err());
    assert_eq!(label(&a, a.find("cancel", 1, None)), "CANCEL");
}

#[test]
fn refusals_suggest_similar_labels() {
    let mut a = Agent::new("T", false);
    a.set_widgets(vec![
        widget("button", "UPGRADE ALL", true),
        widget("button", "UPGRADE ALL", true),
        widget("item", "upgrade log", true),
        widget("button", "QUIT", true),
    ]);
    assert_eq!(
        a.find("  upgrade  everything ", 1, None),
        Err("no widget labelled `upgrade  everything`; similar: UPGRADE ALL, upgrade log".into())
    );
    assert_eq!(
        a.find("zzz", 1, None),
        Err("no widget labelled `zzz` (call `observe` for the current labels)".into())
    );
    assert_eq!(
        a.find("quit", 4, None),
        Err("only 1 widget(s) labelled `quit`, asked for #4".into())
    );
    assert_eq!(a.find("QUIT", 0, None), Ok(3));
}

#[test]
fn blocked_labels_are_case_insensitive() {
    let mut a = Agent::new("T", false);
    a.set_blocked(vec!["UPGRADE ALL".into()]);
    assert!(a.is_blocked("upgrade all"));
    assert!(!a.is_blocked("UPGRADE"));
    assert_eq!(
        a.blocked_message("Enter"),
        "`Enter` is reserved for the human while this confirmation is open (Settings → AGENT → CONFIRM DIALOGS). Ask them, or click CANCEL."
    );
}

#[test]
fn status_line_follows_the_server() {
    let mut a = Agent::new("T", false);
    assert_eq!(a.status_line(Some("address in use"), None), "ERROR :: address in use");
    assert_eq!(a.status_line(None, None), "OFF");
    let idle = ServerStatus { clients: 0, calls: 0, file: "brew.sock".into() };
    assert_eq!(a.status_line(None, Some(&idle)), "ON :: WAITING FOR A CLIENT :: brew.sock");
    let two = ServerStatus { clients: 2, calls: 7, file: "brew.sock".into() };
    assert_eq!(a.status_line(None, Some(&two)), "ON :: 2 CLIENTS :: 7 CALLS");
    a.set_widgets(vec![widget("button", "GO", true)]);
    a.start(Command::Click { label: "GO".into(), nth: 1 }, 0, "", "1x1");
    let one = ServerStatus { clients: 1, calls: 7, file: "brew.sock".into() };
    assert_eq!(a.status_line(None, Some(&one)), "ON :: 1 CLIENT :: CLICK ▸ GO");
}

#[test]
fn abort_answers_the_call_in_flight() {
    let mut a = Agent::new("T", false);
    assert_eq!(a.abort("off"), None);
    a.start(Command::Wait { ms: 10 }, 0, "", "1x1");
    assert!(a.busy());
    assert_eq!(a.abort("the agent interface was switched off"), Some(Reply::Error("the agent interface was switched off".into())));
    assert!(!a.busy());
}

#[test]
fn instructions_name_the_app() {
    let t = instructions("FUIDE Brew");
    assert!(t.starts_with("Drives the FUIDE Brew window (a FUI desktop app) while a person watches:"));
    assert!(t.ends_with("they act directly and return the observation afterwards."));
}

#[test]
fn socket_path_prefers_the_settings_directory() {
    assert_eq!(
        socket_path("brew", Some("/Users/me/Library/Application Support/FUIDE"), "/tmp"),
        "/Users/me/Library/Application Support/FUIDE/brew.sock"
    );
    let long = format!("/{}", "x".repeat(120));
    assert_eq!(socket_path("brew", Some(&long), "/tmp/"), "/tmp/fuide-brew.sock");
    assert_eq!(socket_path("brew", None, "/var/tmp"), "/var/tmp/fuide-brew.sock");
}

#[test]
fn the_bridge_launches_once_then_waits_or_gives_up() {
    assert_eq!(next_attempt(None, false, true, false, "Brew", "/s"), Attempt::Connected);
    assert_eq!(next_attempt(Some("refused"), false, true, false, "Brew", "/s"), Attempt::Launch);
    assert_eq!(next_attempt(Some("refused"), true, true, false, "Brew", "/s"), Attempt::Retry);
    assert_eq!(
        next_attempt(Some("refused"), true, true, true, "Brew", "/s"),
        Attempt::GiveUp(
            "Brew is not reachable at /s (refused). Start the app and turn on Settings (Cmd+,) → AGENT → ON, then call again."
                .into()
        )
    );
    assert_eq!(next_attempt(Some("refused"), false, false, true, "Brew", "/s"), next_attempt(Some("refused"), true, false, true, "Brew", "/s"));
    assert_eq!(
        went_away("Brew", "broken pipe"),
        "Brew went away (broken pipe). Is it still running with the agent on? Call again to reconnect."
    );
    assert!(forwards(Some("tools/call")));
    assert!(!forwards(Some("tools/list")));
    assert!(!forwards(None));
}

#[test]
fn lookup_uses_the_lower_cased_forms_it_is_given() {
    let ws = vec![widget("button", "OUTDATED  3", true), widget("item", "Filter", true)];
    // substring tier over the given lower-cased labels and wanted text
    let lowered = vec!["outdated  3".to_string(), "filter".to_string()];
    assert_eq!(find_given(&ws, &lowered, "dated", 1, None, "dated", &["dated".to_string()]), Ok(0));
    // other lower-cased forms give other answers: the result follows what was given
    let odd = vec!["xx".to_string(), "dated!".to_string()];
    assert_eq!(find_given(&ws, &odd, "dated", 1, None, "dated", &["dated".to_string()]), Ok(1));
    let e = find_given(&ws, &odd, "zz", 1, None, "zz", &["x".to_string()]).unwrap_err();
    assert_eq!(e, "no widget labelled `zz`; similar: OUTDATED  3");
    // with std's lower-casing
    assert_eq!(find_in(&ws, "outdated", 1, None), Ok(0));
    assert_eq!(find_in(&ws, "FILTER", 1, None), Ok(1));
}
