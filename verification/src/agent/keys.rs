//! Key combos (`"cmd+shift+3"`, `"enter"`, `"down"`) → an egui key name plus modifiers.

use vstd::prelude::*;

use crate::text::{
    ascii_lowercase, ascii_lowercase_vec, chars_of, eq_ignore_ascii_case, eq_ignore_ascii_case_exec,
    nonempty, push_all, push_str, seq_eq, split_on, string_of, trim, trim_vec, views,
};

verus! {

/// Modifier keys (the fields of `egui::Modifiers`).
#[derive(Clone, Copy, Debug, PartialEq, Eq, Structural)]
pub struct Mods {
    pub alt: bool,
    pub ctrl: bool,
    pub shift: bool,
    pub mac_cmd: bool,
    pub command: bool,
}

pub open spec fn no_mods() -> Mods {
    Mods { alt: false, ctrl: false, shift: false, mac_cmd: false, command: false }
}

// ------------------------------------------------------------------------------- egui's key table

/// What egui's `Key::from_name(name)` resolves `name` to, given as that key's `Key::name()`.
pub uninterp spec fn egui_named(name: Seq<char>) -> Option<Seq<char>>;

/// Entry `i` of egui's `Key::ALL`: the key's `Key::name()` and its `Debug` form (the variant
/// name); `None` past the end of the list.
pub uninterp spec fn egui_entry(i: int) -> Option<(Seq<char>, Seq<char>)>;

/// egui's `Key::from_name`, answered with the found key's `Key::name()`. Claimed: the result is
/// `egui_named(name)`, a function of `name` alone (egui's fixed name table).
#[verifier::external_body]
fn key_from_name(name: &str) -> (r: Option<String>)
    ensures
        match r {
            Some(s) => egui_named(name@) == Some(s@),
            None => egui_named(name@) is None,
        },
{
    egui::Key::from_name(name).map(|k| k.name().to_string())
}

/// Entry `i` of egui's `Key::ALL` as `(Key::name(), Debug form)`. Claimed: the result is
/// `egui_entry(i)`, a function of `i` alone (egui's fixed key list), and the list is shorter
/// than 1024 entries (egui 0.36 lists 117 keys).
#[verifier::external_body]
fn key_entry(i: usize) -> (r: Option<(String, String)>)
    ensures
        match r {
            Some(p) => egui_entry(i as int) == Some((p.0@, p.1@)),
            None => egui_entry(i as int) is None,
        },
        i >= 1024 ==> r is None,
{
    egui::Key::ALL.get(i).map(|k| (k.name().to_string(), format!("{k:?}")))
}

// ------------------------------------------------------------------------------- key names

/// The short names this crate accepts besides egui's own: two spellings (after ASCII
/// lower-casing) and the egui key name they stand for.
pub open spec fn alias_table() -> Seq<(Seq<char>, Seq<char>, Seq<char>)> {
    seq![
        ("enter"@, "return"@, "Enter"@),
        ("esc"@, "escape"@, "Escape"@),
        ("tab"@, "tab"@, "Tab"@),
        ("space"@, " "@, "Space"@),
        ("backspace"@, "backspace"@, "Backspace"@),
        ("delete"@, "del"@, "Delete"@),
        ("up"@, "up"@, "Up"@),
        ("down"@, "down"@, "Down"@),
        ("left"@, "left"@, "Left"@),
        ("right"@, "right"@, "Right"@),
        ("home"@, "home"@, "Home"@),
        ("end"@, "end"@, "End"@),
        ("pageup"@, "pgup"@, "PageUp"@),
        ("pagedown"@, "pgdn"@, "PageDown"@),
        ("comma"@, ","@, "Comma"@),
        ("period"@, "."@, "Period"@),
        ("slash"@, "/"@, "Slash"@),
        ("minus"@, "-"@, "Minus"@),
        ("plus"@, "+"@, "Plus"@),
        ("equals"@, "="@, "Equals"@),
    ]
}

/// The egui key name an alias stands for.
pub open spec fn alias(n: Seq<char>) -> Option<Seq<char>> {
    alias_in(alias_table(), n, 0)
}

/// Entry `j` of egui's key list matches `name` (its name or its variant name, ignoring ASCII
/// case).
pub open spec fn entry_matches(j: int, name: Seq<char>) -> bool {
    match egui_entry(j) {
        Some((n, d)) => eq_ignore_ascii_case(n, name) || eq_ignore_ascii_case(d, name),
        None => false,
    }
}

/// `j` is the first entry of egui's key list that matches `name`.
pub open spec fn first_match(j: int, name: Seq<char>) -> bool {
    &&& 0 <= j
    &&& entry_matches(j, name)
    &&& forall|k: int| 0 <= k < j ==> #[trigger] egui_entry(k) is Some && !entry_matches(k, name)
}

/// No entry of egui's key list matches `name` (the list ends before one does).
pub open spec fn no_match(name: Seq<char>) -> bool {
    exists|n: int|
        0 <= n && #[trigger] egui_entry(n) is None && forall|k: int|
            0 <= k < n ==> #[trigger] egui_entry(k) is Some && !entry_matches(k, name)
}

/// `unknown key `name``.
pub open spec fn unknown_key(name: Seq<char>) -> Seq<char> {
    "unknown key `"@ + name + "`"@
}

/// What [`parse_key`] gives for `name`: an alias, else egui's `Key::from_name`, else the first
/// key of egui's list whose name or variant name equals `name` ignoring ASCII case.
pub open spec fn key_result(name: Seq<char>, r: Result<Seq<char>, Seq<char>>) -> bool {
    match alias(ascii_lowercase(name)) {
        Some(k) => r == Ok::<Seq<char>, Seq<char>>(k),
        None => match egui_named(name) {
            Some(k) => r == Ok::<Seq<char>, Seq<char>>(k),
            None => match r {
                Ok(k) => exists|j: int| first_match(j, name) && egui_entry(j).unwrap().0 == k,
                Err(e) => no_match(name) && e == unknown_key(name),
            },
        },
    }
}

fn alias_exec(n: &[char]) -> (r: Option<String>)
    ensures
        match r {
            Some(s) => alias(n@) == Some(s@),
            None => alias(n@) is None,
        },
{
    let pairs: [(&str, &str, &str); 20] = [
        ("enter", "return", "Enter"),
        ("esc", "escape", "Escape"),
        ("tab", "tab", "Tab"),
        ("space", " ", "Space"),
        ("backspace", "backspace", "Backspace"),
        ("delete", "del", "Delete"),
        ("up", "up", "Up"),
        ("down", "down", "Down"),
        ("left", "left", "Left"),
        ("right", "right", "Right"),
        ("home", "home", "Home"),
        ("end", "end", "End"),
        ("pageup", "pgup", "PageUp"),
        ("pagedown", "pgdn", "PageDown"),
        ("comma", ",", "Comma"),
        ("period", ".", "Period"),
        ("slash", "/", "Slash"),
        ("minus", "-", "Minus"),
        ("plus", "+", "Plus"),
        ("equals", "=", "Equals"),
    ];
    let ghost table = alias_table();
    let mut i: usize = 0;
    while i < 20
        invariant
            i <= 20,
            table.len() == 20,
            forall|j: int| 0 <= j < 20 ==> #[trigger] table[j] == (pairs@[j].0@, pairs@[j].1@, pairs@[j].2@),
            alias(n@) == alias_in(table, n@, i as int),
        decreases 20 - i,
    {
        let (a, b, c) = pairs[i];
        let av = chars_of(a);
        let bv = chars_of(b);
        if seq_eq(n, av.as_slice()) || seq_eq(n, bv.as_slice()) {
            return Some(string_of(chars_of(c).as_slice()));
        }
        i = i + 1;
    }
    None
}

/// The alias table from entry `i` on.
pub open spec fn alias_in(t: Seq<(Seq<char>, Seq<char>, Seq<char>)>, n: Seq<char>, i: int) -> Option<Seq<char>>
    decreases t.len() - i,
{
    if i < 0 || i >= t.len() {
        None
    } else if n == t[i].0 || n == t[i].1 {
        Some(t[i].2)
    } else {
        alias_in(t, n, i + 1)
    }
}

/// The first entry of `entries`, from `i` on, whose name or variant name equals `name`
/// ignoring ASCII case.
pub open spec fn first_entry_from(entries: Seq<(Seq<char>, Seq<char>)>, name: Seq<char>, i: int) -> Option<int>
    decreases entries.len() - i,
{
    if i < 0 || i >= entries.len() {
        None
    } else if eq_ignore_ascii_case(entries[i].0, name) || eq_ignore_ascii_case(entries[i].1, name) {
        Some(i)
    } else {
        first_entry_from(entries, name, i + 1)
    }
}

/// Resolving `name` given what egui's `Key::from_name` answered (`named`) and egui's key list
/// (`entries`, each key's name and variant name): an alias, else `named`, else the first entry
/// matching ignoring ASCII case, else `unknown key`.
pub open spec fn resolve_spec(name: Seq<char>, named: Option<Seq<char>>, entries: Seq<(Seq<char>, Seq<char>)>) -> Result<Seq<char>, Seq<char>> {
    match alias(ascii_lowercase(name)) {
        Some(k) => Ok(k),
        None => match named {
            Some(k) => Ok(k),
            None => match first_entry_from(entries, name, 0) {
                Some(j) => Ok(entries[j].0),
                None => Err(unknown_key(name)),
            },
        },
    }
}

pub open spec fn entry_views(e: Seq<(String, String)>) -> Seq<(Seq<char>, Seq<char>)> {
    e.map_values(|p: (String, String)| (p.0@, p.1@))
}

pub open spec fn result_view(r: Result<String, String>) -> Result<Seq<char>, Seq<char>> {
    match r {
        Ok(k) => Ok(k@),
        Err(e) => Err(e@),
    }
}

/// Resolve key name `name` from egui's answers (see [`resolve_spec`]).
pub fn resolve_key(name: &str, named: Option<String>, entries: &[(String, String)]) -> (r: Result<String, String>)
    ensures
        result_view(r) == resolve_spec(name@, match named { Some(s) => Some(s@), None => None }, entry_views(entries@)),
{
    let ghost ev = entry_views(entries@);
    let nv = chars_of(name);
    let lower = ascii_lowercase_vec(nv.as_slice());
    if let Some(k) = alias_exec(lower.as_slice()) {
        return Ok(k);
    }
    if let Some(k) = named {
        return Ok(k);
    }
    let mut i: usize = 0;
    while i < entries.len()
        invariant
            i <= entries.len(),
            nv@ == name@,
            ev == entry_views(entries@),
            alias(ascii_lowercase(name@)) is None,
            named is None,
            first_entry_from(ev, name@, 0) == first_entry_from(ev, name@, i as int),
        decreases entries.len() - i,
    {
        let nn = chars_of(entries[i].0.as_str());
        let dd = chars_of(entries[i].1.as_str());
        assert(ev[i as int] == (entries@[i as int].0@, entries@[i as int].1@));
        if eq_ignore_ascii_case_exec(nn.as_slice(), nv.as_slice())
            || eq_ignore_ascii_case_exec(dd.as_slice(), nv.as_slice()) {
            let k = string_of(nn.as_slice());
            return Ok(k);
        }
        i = i + 1;
    }
    let mut e: Vec<char> = Vec::new();
    push_str(&mut e, "unknown key `");
    push_all(&mut e, nv.as_slice());
    push_str(&mut e, "`");
    assert(e@ =~= unknown_key(name@));
    Err(string_of(e.as_slice()))
}

proof fn lemma_first_entry(entries: Seq<(Seq<char>, Seq<char>)>, name: Seq<char>, i: int)
    requires
        0 <= i <= entries.len(),
        forall|k: int| 0 <= k < entries.len() ==> #[trigger] egui_entry(k) == Some(entries[k]),
        egui_entry(entries.len() as int) is None,
        forall|k: int| 0 <= k < i ==> !entry_matches(k, name),
    ensures
        match first_entry_from(entries, name, i) {
            Some(j) => first_match(j, name) && egui_entry(j).unwrap().0 == entries[j].0,
            None => no_match(name),
        },
    decreases entries.len() - i,
{
    if i == entries.len() {
        assert(egui_entry(entries.len() as int) is None);
        assert(forall|k: int| 0 <= k < entries.len() ==> #[trigger] egui_entry(k) is Some && !entry_matches(k, name)) by {
            assert forall|k: int| 0 <= k < entries.len() implies #[trigger] egui_entry(k) is Some && !entry_matches(k, name) by {
                assert(egui_entry(k) == Some(entries[k]));
            }
        }
    } else {
        assert(egui_entry(i) == Some(entries[i]));
        if eq_ignore_ascii_case(entries[i].0, name) || eq_ignore_ascii_case(entries[i].1, name) {
            assert(entry_matches(i, name));
            assert forall|k: int| 0 <= k < i implies #[trigger] egui_entry(k) is Some && !entry_matches(k, name) by {
                assert(egui_entry(k) == Some(entries[k]));
            }
        } else {
            assert(!entry_matches(i, name));
            lemma_first_entry(entries, name, i + 1);
        }
    }
}

/// Resolve a key name: an alias (`enter`, `esc`, `pgup`, `comma` …), else egui's
/// `Key::from_name`, else the first key of egui's list whose name or variant name equals `name`
/// ignoring ASCII case. `Ok` holds the key's egui name (`Key::name()`).
pub fn parse_key(name: &str) -> (r: Result<String, String>)
    ensures
        key_result(name@, result_view(r)),
{
    let named = key_from_name(name);
    let mut entries: Vec<(String, String)> = Vec::new();
    let mut i: usize = 0;
    loop
        invariant_except_break
            i <= 1024,
        invariant
            entries.len() == i,
            forall|k: int| 0 <= k < i ==> #[trigger] egui_entry(k) == Some(entry_views(entries@)[k]),
        ensures
            egui_entry(i as int) is None,
            entries.len() == i,
        decreases 1024 - i,
    {
        match key_entry(i) {
            None => break,
            Some(p) => {
                let ghost before = entries@;
                entries.push(p);
                proof {
                    assert(entry_views(entries@) =~= entry_views(before).push((p.0@, p.1@)));
                }
                i = i + 1;
            },
        }
    }
    let r = resolve_key(name, named, entries.as_slice());
    proof {
        let ev = entry_views(entries@);
        assert forall|k: int| 0 <= k < ev.len() implies #[trigger] egui_entry(k) == Some(ev[k]) by {}
        lemma_first_entry(ev, name@, 0);
    }
    r
}

// ------------------------------------------------------------------------------- combos

/// The parts of a combo: cut at `+`, trimmed, empty parts dropped.
pub open spec fn combo_parts(combo: Seq<char>) -> Seq<Seq<char>> {
    nonempty(split_on(combo, '+').map_values(|p: Seq<char>| trim(p)))
}

/// One modifier word (already ASCII lower-cased) applied to `m`: `cmd` / `command` / `meta` /
/// `super` / `win` set `command` (and `mac_cmd` on macOS); `ctrl` / `control` set `ctrl` (and
/// `command` off macOS); `alt` / `option` / `opt` set `alt`; `shift` sets `shift`.
pub open spec fn mod_word(m: Mods, w: Seq<char>, mac: bool) -> Result<Mods, Seq<char>> {
    if w == "cmd"@ || w == "command"@ || w == "meta"@ || w == "super"@ || w == "win"@ {
        Ok(Mods { command: true, mac_cmd: mac, ..m })
    } else if w == "ctrl"@ || w == "control"@ {
        Ok(Mods { ctrl: true, command: if !mac { true } else { m.command }, ..m })
    } else if w == "alt"@ || w == "option"@ || w == "opt"@ {
        Ok(Mods { alt: true, ..m })
    } else if w == "shift"@ {
        Ok(Mods { shift: true, ..m })
    } else {
        Err("unknown modifier `"@ + w + "`"@)
    }
}

/// The modifier words applied in order, stopping at the first unknown one.
pub open spec fn mods_of(ws: Seq<Seq<char>>, mac: bool) -> Result<Mods, Seq<char>>
    decreases ws.len(),
{
    if ws.len() == 0 {
        Ok(no_mods())
    } else {
        match mods_of(ws.drop_last(), mac) {
            Err(e) => Err(e),
            Ok(m) => mod_word(m, ascii_lowercase(ws.last()), mac),
        }
    }
}

/// What [`parse_combo`] gives: every part but the last is a modifier word, the last is the key
/// (see [`key_result`]); `empty key` for a combo without parts.
pub open spec fn combo_result(
    combo: Seq<char>,
    mac: bool,
    r: Result<(Seq<char>, Mods), Seq<char>>,
) -> bool {
    let parts = combo_parts(combo);
    if parts.len() == 0 {
        r == Err::<(Seq<char>, Mods), Seq<char>>("empty key"@)
    } else {
        match mods_of(parts.drop_last(), mac) {
            Err(e) => r == Err::<(Seq<char>, Mods), Seq<char>>(e),
            Ok(m) => exists|kr: Result<Seq<char>, Seq<char>>|
                #[trigger] key_result(parts.last(), kr) && match kr {
                    Ok(k) => r == Ok::<(Seq<char>, Mods), Seq<char>>((k, m)),
                    Err(e) => r == Err::<(Seq<char>, Mods), Seq<char>>(e),
                },
        }
    }
}

fn combo_parts_exec(combo: &[char]) -> (r: Vec<Vec<char>>)
    ensures
        views(r@) == combo_parts(combo@),
{
    let mut parts: Vec<Vec<char>> = Vec::new();
    let mut cur: Vec<char> = Vec::new();
    let mut i: usize = 0;
    proof {
        assert(combo@.take(0) =~= Seq::<char>::empty());
        assert(split_on(combo@.take(0), '+').drop_last().map_values(|p: Seq<char>| trim(p))
            =~= Seq::<Seq<char>>::empty());
    }
    while i < combo.len()
        invariant
            i <= combo.len(),
            split_on(combo@.take(i as int), '+').len() > 0,
            split_on(combo@.take(i as int), '+').last() == cur@,
            views(parts@) == nonempty(
                split_on(combo@.take(i as int), '+').drop_last().map_values(|p: Seq<char>| trim(p)),
            ),
        decreases combo.len() - i,
    {
        let ghost prev = split_on(combo@.take(i as int), '+');
        proof {
            assert(combo@.take(i + 1).drop_last() =~= combo@.take(i as int));
            assert(combo@.take(i + 1).last() == combo@[i as int]);
        }
        if combo[i] == '+' {
            let t = trim_vec(cur.as_slice());
            let ghost before = views(parts@);
            if t.len() > 0 {
                parts.push(t);
            }
            cur = Vec::new();
            proof {
                let next = split_on(combo@.take(i + 1), '+');
                assert(next == prev.push(seq![]));
                assert(next.drop_last() =~= prev);
                let tp = prev.map_values(|p: Seq<char>| trim(p));
                let tq = prev.drop_last().map_values(|p: Seq<char>| trim(p));
                assert(tp.drop_last() =~= tq);
                assert(tp.last() == t@);
                if t.len() > 0 {
                    assert(views(parts@) =~= before.push(t@));
                } else {
                    assert(views(parts@) =~= before);
                }
                assert(cur@ =~= Seq::<char>::empty());
            }
        } else {
            cur.push(combo[i]);
            proof {
                let next = split_on(combo@.take(i + 1), '+');
                assert(next == prev.update(prev.len() - 1, prev.last().push(combo@[i as int])));
                assert(next.drop_last() =~= prev.drop_last());
            }
        }
        i = i + 1;
    }
    let ghost all = split_on(combo@.take(i as int), '+');
    let t = trim_vec(cur.as_slice());
    let ghost before = views(parts@);
    if t.len() > 0 {
        parts.push(t);
    }
    proof {
        assert(combo@.take(i as int) =~= combo@);
        let tp = all.map_values(|p: Seq<char>| trim(p));
        let tq = all.drop_last().map_values(|p: Seq<char>| trim(p));
        assert(tp.drop_last() =~= tq);
        assert(tp.last() == t@);
        if t.len() > 0 {
            assert(views(parts@) =~= before.push(t@));
        } else {
            assert(views(parts@) =~= before);
        }
    }
    parts
}

fn mod_word_exec(m: Mods, w: &[char], mac: bool) -> (r: Result<Mods, String>)
    ensures
        match r {
            Ok(x) => mod_word(m, w@, mac) == Ok::<Mods, Seq<char>>(x),
            Err(e) => mod_word(m, w@, mac) == Err::<Mods, Seq<char>>(e@),
        },
{
    let is = |lit: &str| -> (b: bool)
        ensures
            b == (w@ == lit@),
        { seq_eq(w, chars_of(lit).as_slice()) };
    if is("cmd") || is("command") || is("meta") || is("super") || is("win") {
        Ok(Mods { command: true, mac_cmd: mac, ..m })
    } else if is("ctrl") || is("control") {
        Ok(Mods { ctrl: true, command: if !mac { true } else { m.command }, ..m })
    } else if is("alt") || is("option") || is("opt") {
        Ok(Mods { alt: true, ..m })
    } else if is("shift") {
        Ok(Mods { shift: true, ..m })
    } else {
        let mut e: Vec<char> = Vec::new();
        push_str(&mut e, "unknown modifier `");
        push_all(&mut e, w);
        push_str(&mut e, "`");
        Err(string_of(e.as_slice()))
    }
}

/// `"cmd+shift+3"`, `"enter"`, `"down"` → the egui key name plus modifiers. `mac` selects the
/// macOS meaning of `cmd` / `ctrl`.
pub fn parse_combo(combo: &str, mac: bool) -> (r: Result<(String, Mods), String>)
    ensures
        combo_result(
            combo@,
            mac,
            match r {
                Ok((k, m)) => Ok((k@, m)),
                Err(e) => Err(e@),
            },
        ),
{
    let cv = chars_of(combo);
    let parts = combo_parts_exec(cv.as_slice());
    if parts.len() == 0 {
        let e = chars_of("empty key");
        return Err(string_of(e.as_slice()));
    }
    let ghost ps = views(parts@);
    let mut m = Mods { alt: false, ctrl: false, shift: false, mac_cmd: false, command: false };
    let mut k: usize = 0;
    while k + 1 < parts.len()
        invariant
            k < parts.len(),
            ps == views(parts@),
            ps == combo_parts(combo@),
            ps.len() == parts.len(),
            mods_of(ps.take(k as int), mac) == Ok::<Mods, Seq<char>>(m),
        decreases parts.len() - k,
    {
        let lw = ascii_lowercase_vec(parts[k].as_slice());
        proof {
            assert(ps.take(k + 1).drop_last() =~= ps.take(k as int));
            assert(ps.take(k + 1).last() == ps[k as int]);
        }
        match mod_word_exec(m, lw.as_slice(), mac) {
            Ok(x) => m = x,
            Err(e) => {
                proof {
                    assert(parts[k as int]@ == ps[k as int]);
                    assert(mods_of(ps.take(k + 1), mac) == Err::<Mods, Seq<char>>(e@));
                    assert(ps.drop_last().take(k + 1) =~= ps.take(k + 1));
                    lemma_mods_err(ps.drop_last(), (k + 1) as int, mac);
                }
                return Err(e);
            },
        }
        k = k + 1;
    }
    proof {
        assert(ps.take(k as int) =~= ps.drop_last());
    }
    let last = string_of(parts[k].as_slice());
    match parse_key(last.as_str()) {
        Ok(key) => {
            let r = Ok((key, m));
            assert(key_result(ps.last(), Ok(key@)));
            r
        },
        Err(e) => {
            assert(key_result(ps.last(), Err(e@)));
            Err(e)
        },
    }
}

/// Once a modifier word fails, the whole fold fails with that error.
proof fn lemma_mods_err(ws: Seq<Seq<char>>, n: int, mac: bool)
    requires
        0 < n <= ws.len(),
        mods_of(ws.take(n), mac) is Err,
    ensures
        mods_of(ws, mac) == mods_of(ws.take(n), mac),
    decreases ws.len() - n,
{
    if n < ws.len() {
        assert(ws.take(n + 1).drop_last() =~= ws.take(n));
        assert(mods_of(ws.take(n + 1), mac) == mods_of(ws.take(n), mac));
        lemma_mods_err(ws, n + 1, mac);
    } else {
        assert(ws.take(n) =~= ws);
    }
}


/// The order of modifier words does not matter: `shift+cmd+x` means `cmd+shift+x`.
pub proof fn law_modifier_order_is_irrelevant(m: Mods, a: Seq<char>, b: Seq<char>, mac: bool)
    requires
        mod_word(m, a, mac) is Ok,
        mod_word(m, b, mac) is Ok,
    ensures
        mod_word(mod_word(m, a, mac)->Ok_0, b, mac) == mod_word(mod_word(m, b, mac)->Ok_0, a, mac),
{
}

// ------------------------------------------------------------------------------- alias law

/// The spellings that are not the key's own name: `return`, `esc`, ` `, `del`, `pgup`,
/// `pgdn` and the punctuation marks, with the egui key each stands for.
pub open spec fn other_spelling(n: Seq<char>) -> Option<Seq<char>> {
    if n == "return"@ {
        Some("Enter"@)
    } else if n == "esc"@ {
        Some("Escape"@)
    } else if n == " "@ {
        Some("Space"@)
    } else if n == "del"@ {
        Some("Delete"@)
    } else if n == "pgup"@ {
        Some("PageUp"@)
    } else if n == "pgdn"@ {
        Some("PageDown"@)
    } else if n == ","@ {
        Some("Comma"@)
    } else if n == "."@ {
        Some("Period"@)
    } else if n == "/"@ {
        Some("Slash"@)
    } else if n == "-"@ {
        Some("Minus"@)
    } else if n == "+"@ {
        Some("Plus"@)
    } else if n == "="@ {
        Some("Equals"@)
    } else {
        None
    }
}

/// An alias either spells its key's name (ignoring ASCII case) or is one of the other
/// spellings.
pub open spec fn names_key(n: Seq<char>, k: Seq<char>) -> bool {
    eq_ignore_ascii_case(k, n) || other_spelling(n) == Some(k)
}

proof fn lemma_alias_row(i: int)
    requires
        0 <= i < 20,
    ensures
        names_key(alias_table()[i].0, alias_table()[i].2),
        names_key(alias_table()[i].1, alias_table()[i].2),
{
    reveal_strlit(" ");
    reveal_strlit("+");
    reveal_strlit(",");
    reveal_strlit("-");
    reveal_strlit(".");
    reveal_strlit("/");
    reveal_strlit("=");
    reveal_strlit("Backspace");
    reveal_strlit("Comma");
    reveal_strlit("Delete");
    reveal_strlit("Down");
    reveal_strlit("End");
    reveal_strlit("Enter");
    reveal_strlit("Equals");
    reveal_strlit("Escape");
    reveal_strlit("Home");
    reveal_strlit("Left");
    reveal_strlit("Minus");
    reveal_strlit("PageDown");
    reveal_strlit("PageUp");
    reveal_strlit("Period");
    reveal_strlit("Plus");
    reveal_strlit("Right");
    reveal_strlit("Slash");
    reveal_strlit("Space");
    reveal_strlit("Tab");
    reveal_strlit("Up");
    reveal_strlit("backspace");
    reveal_strlit("comma");
    reveal_strlit("del");
    reveal_strlit("delete");
    reveal_strlit("down");
    reveal_strlit("end");
    reveal_strlit("enter");
    reveal_strlit("equals");
    reveal_strlit("esc");
    reveal_strlit("escape");
    reveal_strlit("home");
    reveal_strlit("left");
    reveal_strlit("minus");
    reveal_strlit("pagedown");
    reveal_strlit("pageup");
    reveal_strlit("period");
    reveal_strlit("pgdn");
    reveal_strlit("pgup");
    reveal_strlit("plus");
    reveal_strlit("return");
    reveal_strlit("right");
    reveal_strlit("slash");
    reveal_strlit("space");
    reveal_strlit("tab");
    reveal_strlit("up");
    if i == 0 {
        assert(alias_table()[0] == ("enter"@, "return"@, "Enter"@));
        assert(other_spelling("return"@) == Some("Enter"@));
        assert(ascii_lowercase("Enter"@) =~= ascii_lowercase("enter"@));
    } else if i == 1 {
        assert(alias_table()[1] == ("esc"@, "escape"@, "Escape"@));
        assert("esc"@.len() != "return"@.len());
        assert(other_spelling("esc"@) == Some("Escape"@));
        assert(ascii_lowercase("Escape"@) =~= ascii_lowercase("escape"@));
    } else if i == 2 {
        assert(alias_table()[2] == ("tab"@, "tab"@, "Tab"@));
        assert(ascii_lowercase("Tab"@) =~= ascii_lowercase("tab"@));
        assert(ascii_lowercase("Tab"@) =~= ascii_lowercase("tab"@));
    } else if i == 3 {
        assert(alias_table()[3] == ("space"@, " "@, "Space"@));
        assert(" "@.len() != "return"@.len());
        assert(" "@.len() != "esc"@.len());
        assert(other_spelling(" "@) == Some("Space"@));
        assert(ascii_lowercase("Space"@) =~= ascii_lowercase("space"@));
    } else if i == 4 {
        assert(alias_table()[4] == ("backspace"@, "backspace"@, "Backspace"@));
        assert(ascii_lowercase("Backspace"@) =~= ascii_lowercase("backspace"@));
        assert(ascii_lowercase("Backspace"@) =~= ascii_lowercase("backspace"@));
    } else if i == 5 {
        assert(alias_table()[5] == ("delete"@, "del"@, "Delete"@));
        assert("del"@[0] != "esc"@[0]);
        assert("del"@.len() != "return"@.len());
        assert("del"@.len() != " "@.len());
        assert(other_spelling("del"@) == Some("Delete"@));
        assert(ascii_lowercase("Delete"@) =~= ascii_lowercase("delete"@));
    } else if i == 6 {
        assert(alias_table()[6] == ("up"@, "up"@, "Up"@));
        assert(ascii_lowercase("Up"@) =~= ascii_lowercase("up"@));
        assert(ascii_lowercase("Up"@) =~= ascii_lowercase("up"@));
    } else if i == 7 {
        assert(alias_table()[7] == ("down"@, "down"@, "Down"@));
        assert(ascii_lowercase("Down"@) =~= ascii_lowercase("down"@));
        assert(ascii_lowercase("Down"@) =~= ascii_lowercase("down"@));
    } else if i == 8 {
        assert(alias_table()[8] == ("left"@, "left"@, "Left"@));
        assert(ascii_lowercase("Left"@) =~= ascii_lowercase("left"@));
        assert(ascii_lowercase("Left"@) =~= ascii_lowercase("left"@));
    } else if i == 9 {
        assert(alias_table()[9] == ("right"@, "right"@, "Right"@));
        assert(ascii_lowercase("Right"@) =~= ascii_lowercase("right"@));
        assert(ascii_lowercase("Right"@) =~= ascii_lowercase("right"@));
    } else if i == 10 {
        assert(alias_table()[10] == ("home"@, "home"@, "Home"@));
        assert(ascii_lowercase("Home"@) =~= ascii_lowercase("home"@));
        assert(ascii_lowercase("Home"@) =~= ascii_lowercase("home"@));
    } else if i == 11 {
        assert(alias_table()[11] == ("end"@, "end"@, "End"@));
        assert(ascii_lowercase("End"@) =~= ascii_lowercase("end"@));
        assert(ascii_lowercase("End"@) =~= ascii_lowercase("end"@));
    } else if i == 12 {
        assert(alias_table()[12] == ("pageup"@, "pgup"@, "PageUp"@));
        assert("pgup"@.len() != "return"@.len());
        assert("pgup"@.len() != "esc"@.len());
        assert("pgup"@.len() != " "@.len());
        assert("pgup"@.len() != "del"@.len());
        assert(other_spelling("pgup"@) == Some("PageUp"@));
        assert(ascii_lowercase("PageUp"@) =~= ascii_lowercase("pageup"@));
    } else if i == 13 {
        assert(alias_table()[13] == ("pagedown"@, "pgdn"@, "PageDown"@));
        assert("pgdn"@[2] != "pgup"@[2]);
        assert("pgdn"@.len() != "return"@.len());
        assert("pgdn"@.len() != "esc"@.len());
        assert("pgdn"@.len() != " "@.len());
        assert("pgdn"@.len() != "del"@.len());
        assert(other_spelling("pgdn"@) == Some("PageDown"@));
        assert(ascii_lowercase("PageDown"@) =~= ascii_lowercase("pagedown"@));
    } else if i == 14 {
        assert(alias_table()[14] == ("comma"@, ","@, "Comma"@));
        assert(","@[0] != " "@[0]);
        assert(","@.len() != "return"@.len());
        assert(","@.len() != "esc"@.len());
        assert(","@.len() != "del"@.len());
        assert(","@.len() != "pgup"@.len());
        assert(","@.len() != "pgdn"@.len());
        assert(other_spelling(","@) == Some("Comma"@));
        assert(ascii_lowercase("Comma"@) =~= ascii_lowercase("comma"@));
    } else if i == 15 {
        assert(alias_table()[15] == ("period"@, "."@, "Period"@));
        assert("."@[0] != " "@[0]);
        assert("."@[0] != ","@[0]);
        assert("."@.len() != "return"@.len());
        assert("."@.len() != "esc"@.len());
        assert("."@.len() != "del"@.len());
        assert("."@.len() != "pgup"@.len());
        assert("."@.len() != "pgdn"@.len());
        assert(other_spelling("."@) == Some("Period"@));
        assert(ascii_lowercase("Period"@) =~= ascii_lowercase("period"@));
    } else if i == 16 {
        assert(alias_table()[16] == ("slash"@, "/"@, "Slash"@));
        assert("/"@[0] != " "@[0]);
        assert("/"@[0] != ","@[0]);
        assert("/"@[0] != "."@[0]);
        assert("/"@.len() != "return"@.len());
        assert("/"@.len() != "esc"@.len());
        assert("/"@.len() != "del"@.len());
        assert("/"@.len() != "pgup"@.len());
        assert("/"@.len() != "pgdn"@.len());
        assert(other_spelling("/"@) == Some("Slash"@));
        assert(ascii_lowercase("Slash"@) =~= ascii_lowercase("slash"@));
    } else if i == 17 {
        assert(alias_table()[17] == ("minus"@, "-"@, "Minus"@));
        assert("-"@[0] != " "@[0]);
        assert("-"@[0] != ","@[0]);
        assert("-"@[0] != "."@[0]);
        assert("-"@[0] != "/"@[0]);
        assert("-"@.len() != "return"@.len());
        assert("-"@.len() != "esc"@.len());
        assert("-"@.len() != "del"@.len());
        assert("-"@.len() != "pgup"@.len());
        assert("-"@.len() != "pgdn"@.len());
        assert(other_spelling("-"@) == Some("Minus"@));
        assert(ascii_lowercase("Minus"@) =~= ascii_lowercase("minus"@));
    } else if i == 18 {
        assert(alias_table()[18] == ("plus"@, "+"@, "Plus"@));
        assert("+"@[0] != " "@[0]);
        assert("+"@[0] != ","@[0]);
        assert("+"@[0] != "."@[0]);
        assert("+"@[0] != "/"@[0]);
        assert("+"@[0] != "-"@[0]);
        assert("+"@.len() != "return"@.len());
        assert("+"@.len() != "esc"@.len());
        assert("+"@.len() != "del"@.len());
        assert("+"@.len() != "pgup"@.len());
        assert("+"@.len() != "pgdn"@.len());
        assert(other_spelling("+"@) == Some("Plus"@));
        assert(ascii_lowercase("Plus"@) =~= ascii_lowercase("plus"@));
    } else if i == 19 {
        assert(alias_table()[19] == ("equals"@, "="@, "Equals"@));
        assert("="@[0] != " "@[0]);
        assert("="@[0] != ","@[0]);
        assert("="@[0] != "."@[0]);
        assert("="@[0] != "/"@[0]);
        assert("="@[0] != "-"@[0]);
        assert("="@[0] != "+"@[0]);
        assert("="@.len() != "return"@.len());
        assert("="@.len() != "esc"@.len());
        assert("="@.len() != "del"@.len());
        assert("="@.len() != "pgup"@.len());
        assert("="@.len() != "pgdn"@.len());
        assert(other_spelling("="@) == Some("Equals"@));
        assert(ascii_lowercase("Equals"@) =~= ascii_lowercase("equals"@));
    }
}

proof fn lemma_alias_from(n: Seq<char>, i: int)
    requires
        0 <= i <= 20,
    ensures
        alias_in(alias_table(), n, i) matches Some(k) ==> names_key(n, k),
    decreases 20 - i,
{
    if i < 20 {
        lemma_alias_row(i);
        lemma_alias_from(n, i + 1);
    }
}

/// Every alias names the egui key it stands for: the result of an alias is the key whose name
/// it spells (ignoring ASCII case: `left` is `Left`, `pageup` is `PageUp`), or, for the other
/// spellings (`return`, `esc`, `del`, `pgup`, `,` …), the key listed for it; and each of the
/// other spellings is an alias.
pub proof fn law_aliases_name_their_keys(n: Seq<char>)
    ensures
        alias(n) matches Some(k) ==> names_key(n, k),
        other_spelling(n) matches Some(k) ==> alias(n) == Some(k),
{
    lemma_alias_from(n, 0);
    reveal_with_fuel(alias_in, 21);
    reveal_strlit(" ");
    reveal_strlit("+");
    reveal_strlit(",");
    reveal_strlit("-");
    reveal_strlit(".");
    reveal_strlit("/");
    reveal_strlit("=");
    reveal_strlit("Backspace");
    reveal_strlit("Comma");
    reveal_strlit("Delete");
    reveal_strlit("Down");
    reveal_strlit("End");
    reveal_strlit("Enter");
    reveal_strlit("Equals");
    reveal_strlit("Escape");
    reveal_strlit("Home");
    reveal_strlit("Left");
    reveal_strlit("Minus");
    reveal_strlit("PageDown");
    reveal_strlit("PageUp");
    reveal_strlit("Period");
    reveal_strlit("Plus");
    reveal_strlit("Right");
    reveal_strlit("Slash");
    reveal_strlit("Space");
    reveal_strlit("Tab");
    reveal_strlit("Up");
    reveal_strlit("backspace");
    reveal_strlit("comma");
    reveal_strlit("del");
    reveal_strlit("delete");
    reveal_strlit("down");
    reveal_strlit("end");
    reveal_strlit("enter");
    reveal_strlit("equals");
    reveal_strlit("esc");
    reveal_strlit("escape");
    reveal_strlit("home");
    reveal_strlit("left");
    reveal_strlit("minus");
    reveal_strlit("pagedown");
    reveal_strlit("pageup");
    reveal_strlit("period");
    reveal_strlit("pgdn");
    reveal_strlit("pgup");
    reveal_strlit("plus");
    reveal_strlit("return");
    reveal_strlit("right");
    reveal_strlit("slash");
    reveal_strlit("space");
    reveal_strlit("tab");
    reveal_strlit("up");
    if n == "return"@ {
        assert("return"@.len() != "enter"@.len());
        assert(alias("return"@) == Some("Enter"@));
    } else if n == "esc"@ {
        assert("esc"@.len() != "enter"@.len());
        assert("esc"@.len() != "return"@.len());
        assert(alias("esc"@) == Some("Escape"@));
    } else if n == " "@ {
        assert(" "@.len() != "enter"@.len());
        assert(" "@.len() != "return"@.len());
        assert(" "@.len() != "esc"@.len());
        assert(" "@.len() != "escape"@.len());
        assert(" "@.len() != "tab"@.len());
        assert(" "@.len() != "space"@.len());
        assert(alias(" "@) == Some("Space"@));
    } else if n == "del"@ {
        assert("del"@[0] != "esc"@[0]);
        assert("del"@[0] != "tab"@[0]);
        assert("del"@.len() != "enter"@.len());
        assert("del"@.len() != "return"@.len());
        assert("del"@.len() != "escape"@.len());
        assert("del"@.len() != "space"@.len());
        assert("del"@.len() != " "@.len());
        assert("del"@.len() != "backspace"@.len());
        assert("del"@.len() != "delete"@.len());
        assert(alias("del"@) == Some("Delete"@));
    } else if n == "pgup"@ {
        assert("pgup"@[0] != "down"@[0]);
        assert("pgup"@[0] != "left"@[0]);
        assert("pgup"@[0] != "home"@[0]);
        assert("pgup"@.len() != "enter"@.len());
        assert("pgup"@.len() != "return"@.len());
        assert("pgup"@.len() != "esc"@.len());
        assert("pgup"@.len() != "escape"@.len());
        assert("pgup"@.len() != "tab"@.len());
        assert("pgup"@.len() != "space"@.len());
        assert("pgup"@.len() != " "@.len());
        assert("pgup"@.len() != "backspace"@.len());
        assert("pgup"@.len() != "delete"@.len());
        assert("pgup"@.len() != "del"@.len());
        assert("pgup"@.len() != "up"@.len());
        assert("pgup"@.len() != "right"@.len());
        assert("pgup"@.len() != "end"@.len());
        assert("pgup"@.len() != "pageup"@.len());
        assert(alias("pgup"@) == Some("PageUp"@));
    } else if n == "pgdn"@ {
        assert("pgdn"@[0] != "down"@[0]);
        assert("pgdn"@[0] != "left"@[0]);
        assert("pgdn"@[0] != "home"@[0]);
        assert("pgdn"@[2] != "pgup"@[2]);
        assert("pgdn"@.len() != "enter"@.len());
        assert("pgdn"@.len() != "return"@.len());
        assert("pgdn"@.len() != "esc"@.len());
        assert("pgdn"@.len() != "escape"@.len());
        assert("pgdn"@.len() != "tab"@.len());
        assert("pgdn"@.len() != "space"@.len());
        assert("pgdn"@.len() != " "@.len());
        assert("pgdn"@.len() != "backspace"@.len());
        assert("pgdn"@.len() != "delete"@.len());
        assert("pgdn"@.len() != "del"@.len());
        assert("pgdn"@.len() != "up"@.len());
        assert("pgdn"@.len() != "right"@.len());
        assert("pgdn"@.len() != "end"@.len());
        assert("pgdn"@.len() != "pageup"@.len());
        assert("pgdn"@.len() != "pagedown"@.len());
        assert(alias("pgdn"@) == Some("PageDown"@));
    } else if n == ","@ {
        assert(","@[0] != " "@[0]);
        assert(","@.len() != "enter"@.len());
        assert(","@.len() != "return"@.len());
        assert(","@.len() != "esc"@.len());
        assert(","@.len() != "escape"@.len());
        assert(","@.len() != "tab"@.len());
        assert(","@.len() != "space"@.len());
        assert(","@.len() != "backspace"@.len());
        assert(","@.len() != "delete"@.len());
        assert(","@.len() != "del"@.len());
        assert(","@.len() != "up"@.len());
        assert(","@.len() != "down"@.len());
        assert(","@.len() != "left"@.len());
        assert(","@.len() != "right"@.len());
        assert(","@.len() != "home"@.len());
        assert(","@.len() != "end"@.len());
        assert(","@.len() != "pageup"@.len());
        assert(","@.len() != "pgup"@.len());
        assert(","@.len() != "pagedown"@.len());
        assert(","@.len() != "pgdn"@.len());
        assert(","@.len() != "comma"@.len());
        assert(alias(","@) == Some("Comma"@));
    } else if n == "."@ {
        assert("."@[0] != " "@[0]);
        assert("."@[0] != ","@[0]);
        assert("."@.len() != "enter"@.len());
        assert("."@.len() != "return"@.len());
        assert("."@.len() != "esc"@.len());
        assert("."@.len() != "escape"@.len());
        assert("."@.len() != "tab"@.len());
        assert("."@.len() != "space"@.len());
        assert("."@.len() != "backspace"@.len());
        assert("."@.len() != "delete"@.len());
        assert("."@.len() != "del"@.len());
        assert("."@.len() != "up"@.len());
        assert("."@.len() != "down"@.len());
        assert("."@.len() != "left"@.len());
        assert("."@.len() != "right"@.len());
        assert("."@.len() != "home"@.len());
        assert("."@.len() != "end"@.len());
        assert("."@.len() != "pageup"@.len());
        assert("."@.len() != "pgup"@.len());
        assert("."@.len() != "pagedown"@.len());
        assert("."@.len() != "pgdn"@.len());
        assert("."@.len() != "comma"@.len());
        assert("."@.len() != "period"@.len());
        assert(alias("."@) == Some("Period"@));
    } else if n == "/"@ {
        assert("/"@[0] != " "@[0]);
        assert("/"@[0] != ","@[0]);
        assert("/"@[0] != "."@[0]);
        assert("/"@.len() != "enter"@.len());
        assert("/"@.len() != "return"@.len());
        assert("/"@.len() != "esc"@.len());
        assert("/"@.len() != "escape"@.len());
        assert("/"@.len() != "tab"@.len());
        assert("/"@.len() != "space"@.len());
        assert("/"@.len() != "backspace"@.len());
        assert("/"@.len() != "delete"@.len());
        assert("/"@.len() != "del"@.len());
        assert("/"@.len() != "up"@.len());
        assert("/"@.len() != "down"@.len());
        assert("/"@.len() != "left"@.len());
        assert("/"@.len() != "right"@.len());
        assert("/"@.len() != "home"@.len());
        assert("/"@.len() != "end"@.len());
        assert("/"@.len() != "pageup"@.len());
        assert("/"@.len() != "pgup"@.len());
        assert("/"@.len() != "pagedown"@.len());
        assert("/"@.len() != "pgdn"@.len());
        assert("/"@.len() != "comma"@.len());
        assert("/"@.len() != "period"@.len());
        assert("/"@.len() != "slash"@.len());
        assert(alias("/"@) == Some("Slash"@));
    } else if n == "-"@ {
        assert("-"@[0] != " "@[0]);
        assert("-"@[0] != ","@[0]);
        assert("-"@[0] != "."@[0]);
        assert("-"@[0] != "/"@[0]);
        assert("-"@.len() != "enter"@.len());
        assert("-"@.len() != "return"@.len());
        assert("-"@.len() != "esc"@.len());
        assert("-"@.len() != "escape"@.len());
        assert("-"@.len() != "tab"@.len());
        assert("-"@.len() != "space"@.len());
        assert("-"@.len() != "backspace"@.len());
        assert("-"@.len() != "delete"@.len());
        assert("-"@.len() != "del"@.len());
        assert("-"@.len() != "up"@.len());
        assert("-"@.len() != "down"@.len());
        assert("-"@.len() != "left"@.len());
        assert("-"@.len() != "right"@.len());
        assert("-"@.len() != "home"@.len());
        assert("-"@.len() != "end"@.len());
        assert("-"@.len() != "pageup"@.len());
        assert("-"@.len() != "pgup"@.len());
        assert("-"@.len() != "pagedown"@.len());
        assert("-"@.len() != "pgdn"@.len());
        assert("-"@.len() != "comma"@.len());
        assert("-"@.len() != "period"@.len());
        assert("-"@.len() != "slash"@.len());
        assert("-"@.len() != "minus"@.len());
        assert(alias("-"@) == Some("Minus"@));
    } else if n == "+"@ {
        assert("+"@[0] != " "@[0]);
        assert("+"@[0] != ","@[0]);
        assert("+"@[0] != "."@[0]);
        assert("+"@[0] != "/"@[0]);
        assert("+"@[0] != "-"@[0]);
        assert("+"@.len() != "enter"@.len());
        assert("+"@.len() != "return"@.len());
        assert("+"@.len() != "esc"@.len());
        assert("+"@.len() != "escape"@.len());
        assert("+"@.len() != "tab"@.len());
        assert("+"@.len() != "space"@.len());
        assert("+"@.len() != "backspace"@.len());
        assert("+"@.len() != "delete"@.len());
        assert("+"@.len() != "del"@.len());
        assert("+"@.len() != "up"@.len());
        assert("+"@.len() != "down"@.len());
        assert("+"@.len() != "left"@.len());
        assert("+"@.len() != "right"@.len());
        assert("+"@.len() != "home"@.len());
        assert("+"@.len() != "end"@.len());
        assert("+"@.len() != "pageup"@.len());
        assert("+"@.len() != "pgup"@.len());
        assert("+"@.len() != "pagedown"@.len());
        assert("+"@.len() != "pgdn"@.len());
        assert("+"@.len() != "comma"@.len());
        assert("+"@.len() != "period"@.len());
        assert("+"@.len() != "slash"@.len());
        assert("+"@.len() != "minus"@.len());
        assert("+"@.len() != "plus"@.len());
        assert(alias("+"@) == Some("Plus"@));
    } else if n == "="@ {
        assert("="@[0] != " "@[0]);
        assert("="@[0] != ","@[0]);
        assert("="@[0] != "."@[0]);
        assert("="@[0] != "/"@[0]);
        assert("="@[0] != "-"@[0]);
        assert("="@[0] != "+"@[0]);
        assert("="@.len() != "enter"@.len());
        assert("="@.len() != "return"@.len());
        assert("="@.len() != "esc"@.len());
        assert("="@.len() != "escape"@.len());
        assert("="@.len() != "tab"@.len());
        assert("="@.len() != "space"@.len());
        assert("="@.len() != "backspace"@.len());
        assert("="@.len() != "delete"@.len());
        assert("="@.len() != "del"@.len());
        assert("="@.len() != "up"@.len());
        assert("="@.len() != "down"@.len());
        assert("="@.len() != "left"@.len());
        assert("="@.len() != "right"@.len());
        assert("="@.len() != "home"@.len());
        assert("="@.len() != "end"@.len());
        assert("="@.len() != "pageup"@.len());
        assert("="@.len() != "pgup"@.len());
        assert("="@.len() != "pagedown"@.len());
        assert("="@.len() != "pgdn"@.len());
        assert("="@.len() != "comma"@.len());
        assert("="@.len() != "period"@.len());
        assert("="@.len() != "slash"@.len());
        assert("="@.len() != "minus"@.len());
        assert("="@.len() != "plus"@.len());
        assert("="@.len() != "equals"@.len());
        assert(alias("="@) == Some("Equals"@));
    }
}

} // verus!
