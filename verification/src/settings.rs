//! Per-app theme settings: what the user can change at runtime (palette, corners, density,
//! window translucency, layout, agent switches), persisted as a small `key=value` file.
//!
//! The file format is line based: `#` starts a comment line, blank lines and lines without `=`
//! are ignored, keys and values are trimmed, unknown keys are ignored and missing keys keep
//! their defaults, so old files stay valid. `log_height` is a number the caller parses; this
//! module keeps the text of its value.

use vstd::prelude::*;

use crate::text::{
    chars_of, is_ws, lead_ws, lemma_split_on_extend, push_all, push_str, seq_eq, slice_vec,
    split_on, string_of, trail_ws, trim, trim_bounds,
};
use crate::pathinput::{join_path, join_path_exec};
use crate::theme::{kind_name, kind_named, PaletteKind};

verus! {

/// Everything the settings window edits.
#[derive(Clone, Debug, PartialEq)]
pub struct Settings {
    pub palette: PaletteKind,
    /// 45° chamfers on window / panels / tabs / buttons.
    pub chamfer: bool,
    /// Denser type scale.
    pub compact: bool,
    /// Window: translucent (the desktop shows through the body's ground colour). Off =
    /// OPAQUE: the app paints `bg_deep` fully opaque.
    pub transparent: bool,
    /// Layout: text of the `log_height` value (the log panel's height in logical px, once the
    /// user has dragged the divider; `None` = the app's default). Not shown in the window.
    pub log_height: Option<String>,
    /// Layout: the log panel is open (collapsed to its header strip when false).
    pub log_open: bool,
    /// Agent interface (MCP server on a Unix socket) on.
    pub agent: bool,
    /// The agent may press confirmation dialogs' verbs itself. Off = those buttons are
    /// reserved for the human.
    pub agent_confirm: bool,
}

/// [`Settings`] as plain values.
pub struct SettingsView {
    pub palette: PaletteKind,
    pub chamfer: bool,
    pub compact: bool,
    pub transparent: bool,
    pub log_height: Option<Seq<char>>,
    pub log_open: bool,
    pub agent: bool,
    pub agent_confirm: bool,
}

impl View for Settings {
    type V = SettingsView;

    open spec fn view(&self) -> SettingsView {
        SettingsView {
            palette: self.palette,
            chamfer: self.chamfer,
            compact: self.compact,
            transparent: self.transparent,
            log_height: match self.log_height {
                Some(h) => Some(h@),
                None => None,
            },
            log_open: self.log_open,
            agent: self.agent,
            agent_confirm: self.agent_confirm,
        }
    }
}

/// Defaults with palette `p`.
pub open spec fn defaults(p: PaletteKind) -> SettingsView {
    SettingsView {
        palette: p,
        chamfer: false,
        compact: false,
        transparent: true,
        log_height: None,
        log_open: true,
        agent: false,
        agent_confirm: false,
    }
}

/// Index of the first `=` in `t`.
pub open spec fn first_eq(t: Seq<char>) -> Option<int>
    decreases t.len(),
{
    if t.len() == 0 {
        None
    } else if t[0] == '=' {
        Some(0)
    } else {
        match first_eq(t.drop_first()) {
            Some(i) => Some(i + 1),
            None => None,
        }
    }
}

/// One `key = value` pair applied to `s`.
pub open spec fn apply_kv(s: SettingsView, k: Seq<char>, v: Seq<char>) -> SettingsView {
    if k == "palette"@ {
        match kind_named(v) {
            Some(p) => SettingsView { palette: p, ..s },
            None => s,
        }
    } else if k == "chamfer"@ {
        SettingsView { chamfer: v == "true"@, ..s }
    } else if k == "compact"@ {
        SettingsView { compact: v == "true"@, ..s }
    } else if k == "transparent"@ {
        SettingsView { transparent: v != "false"@, ..s }
    } else if k == "log_height"@ {
        SettingsView { log_height: Some(v), ..s }
    } else if k == "log_open"@ {
        SettingsView { log_open: v != "false"@, ..s }
    } else if k == "agent"@ {
        SettingsView { agent: v == "true"@, ..s }
    } else if k == "agent_confirm"@ {
        SettingsView { agent_confirm: v == "true"@, ..s }
    } else {
        s
    }
}

/// One line applied to `s`: trimmed; blank and `#` lines and lines without `=` change
/// nothing; otherwise the trimmed text before the first `=` is the key and the trimmed text
/// after it the value. Only the literal `true` switches a flag on; only `false` closes the log
/// or makes the window opaque.
pub open spec fn apply_line(s: SettingsView, line: Seq<char>) -> SettingsView {
    let t = trim(line);
    if t.len() == 0 || t[0] == '#' {
        s
    } else {
        match first_eq(t) {
            None => s,
            Some(i) => apply_kv(s, trim(t.take(i)), trim(t.skip(i + 1))),
        }
    }
}

/// Lines applied in order to the defaults.
pub open spec fn apply_lines(lines: Seq<Seq<char>>) -> SettingsView
    decreases lines.len(),
{
    if lines.len() == 0 {
        defaults(PaletteKind::Cyan)
    } else {
        apply_line(apply_lines(lines.drop_last()), lines.last())
    }
}

/// What [`Settings::parse`] reads from `text`.
pub open spec fn parse_spec(text: Seq<char>) -> SettingsView {
    apply_lines(split_on(text, '\n'))
}

fn eq_str(v: &[char], lit: &str) -> (r: bool)
    ensures
        r == (v@ == lit@),
{
    let l = chars_of(lit);
    seq_eq(v, l.as_slice())
}

fn first_eq_exec(t: &[char]) -> (r: Option<usize>)
    ensures
        match r {
            Some(i) => first_eq(t@) == Some(i as int) && i < t.len(),
            None => first_eq(t@) is None,
        },
{
    let mut i: usize = 0;
    while i < t.len() && t[i] != '='
        invariant
            i <= t.len(),
            forall|j: int| 0 <= j < i ==> #[trigger] t@[j] != '=',
        decreases t.len() - i,
    {
        i = i + 1;
    }
    proof {
        lemma_first_eq(t@, i as int);
    }
    if i < t.len() {
        Some(i)
    } else {
        None
    }
}

proof fn lemma_first_eq(t: Seq<char>, i: int)
    requires
        0 <= i <= t.len(),
        forall|j: int| 0 <= j < i ==> #[trigger] t[j] != '=',
        i == t.len() || t[i] == '=',
    ensures
        first_eq(t) == (if i < t.len() {
            Some(i)
        } else {
            None::<int>
        }),
    decreases t.len(),
{
    if t.len() > 0 && t[0] != '=' {
        assert forall|j: int| 0 <= j < i - 1 implies #[trigger] t.drop_first()[j] != '=' by {
            assert(t[j + 1] != '=');
        }
        lemma_first_eq(t.drop_first(), i - 1);
    }
}

impl Settings {
    /// Defaults with the app's own default palette.
    pub fn new(palette: PaletteKind) -> (r: Self)
        ensures
            r@ == defaults(palette),
    {
        Settings {
            palette,
            chamfer: false,
            compact: false,
            transparent: true,
            log_height: None,
            log_open: true,
            agent: false,
            agent_confirm: false,
        }
    }

    fn apply_kv(&mut self, k: &[char], v: &[char])
        ensures
            final(self)@ == apply_kv(old(self)@, k@, v@),
    {
        if eq_str(k, "palette") {
            let vs = string_of(v);
            match PaletteKind::from_name(vs.as_str()) {
                Some(p) => self.palette = p,
                None => {},
            }
        } else if eq_str(k, "chamfer") {
            self.chamfer = eq_str(v, "true");
        } else if eq_str(k, "compact") {
            self.compact = eq_str(v, "true");
        } else if eq_str(k, "transparent") {
            self.transparent = !eq_str(v, "false");
        } else if eq_str(k, "log_height") {
            self.log_height = Some(string_of(v));
        } else if eq_str(k, "log_open") {
            self.log_open = !eq_str(v, "false");
        } else if eq_str(k, "agent") {
            self.agent = eq_str(v, "true");
        } else if eq_str(k, "agent_confirm") {
            self.agent_confirm = eq_str(v, "true");
        }
    }

    fn apply_line(&mut self, line: &[char])
        ensures
            final(self)@ == apply_line(old(self)@, line@),
    {
        let (a, b) = trim_bounds(line);
        let t = slice_vec(line, a, b);
        if t.len() == 0 || t[0] == '#' {
            return;
        }
        match first_eq_exec(t.as_slice()) {
            None => {},
            Some(i) => {
                let k = slice_vec(t.as_slice(), 0, i);
                let v = slice_vec(t.as_slice(), i + 1, t.len());
                let (ka, kb) = trim_bounds(k.as_slice());
                let (va, vb) = trim_bounds(v.as_slice());
                let kt = slice_vec(k.as_slice(), ka, kb);
                let vt = slice_vec(v.as_slice(), va, vb);
                proof {
                    assert(k@ =~= t@.take(i as int));
                    assert(v@ =~= t@.skip(i + 1));
                }
                self.apply_kv(kt.as_slice(), vt.as_slice());
            },
        }
    }

    /// Read settings from the text of a settings file (see the module docs for the format).
    pub fn parse(text: &str) -> (r: Self)
        ensures
            r@ == parse_spec(text@),
    {
        let t = chars_of(text);
        let mut s = Settings::new(PaletteKind::Cyan);
        let mut cur: Vec<char> = Vec::new();
        let mut i: usize = 0;
        proof {
            assert(t@.take(0) =~= Seq::<char>::empty());
            assert(split_on(t@.take(0), '\n').drop_last() =~= Seq::<Seq<char>>::empty());
        }
        while i < t.len()
            invariant
                i <= t.len(),
                split_on(t@.take(i as int), '\n').len() > 0,
                split_on(t@.take(i as int), '\n').last() == cur@,
                s@ == apply_lines(split_on(t@.take(i as int), '\n').drop_last()),
            decreases t.len() - i,
        {
            let ghost prev = split_on(t@.take(i as int), '\n');
            proof {
                assert(t@.take(i + 1).drop_last() =~= t@.take(i as int));
                assert(t@.take(i + 1).last() == t@[i as int]);
            }
            if t[i] == '\n' {
                s.apply_line(cur.as_slice());
                cur = Vec::new();
                proof {
                    let next = split_on(t@.take(i + 1), '\n');
                    assert(next == prev.push(seq![]));
                    assert(next.drop_last() =~= prev);
                    assert(prev =~= prev.drop_last().push(prev.last()));
                    assert(cur@ =~= Seq::<char>::empty());
                }
            } else {
                cur.push(t[i]);
                proof {
                    let next = split_on(t@.take(i + 1), '\n');
                    assert(next == prev.update(prev.len() - 1, prev.last().push(t@[i as int])));
                    assert(next.drop_last() =~= prev.drop_last());
                }
            }
            i = i + 1;
        }
        let ghost lines = split_on(t@.take(i as int), '\n');
        s.apply_line(cur.as_slice());
        proof {
            assert(t@.take(i as int) =~= t@);
            assert(lines =~= lines.drop_last().push(lines.last()));
        }
        s
    }
}

impl Default for Settings {
    fn default() -> (r: Self)
        ensures
            r@ == defaults(PaletteKind::Cyan),
    {
        Settings::new(PaletteKind::Cyan)
    }
}

// ------------------------------------------------------------------------------- writing

/// `true` / `false`.
pub open spec fn bool_text(b: bool) -> Seq<char> {
    if b {
        "true"@
    } else {
        "false"@
    }
}

/// `key=value`.
pub open spec fn kv_line(k: Seq<char>, v: Seq<char>) -> Seq<char> {
    k + seq!['='] + v
}

/// The lines of the settings file for `s`, without line ends: a header comment, then one
/// `key=value` line per field in a fixed order; `log_height` only when it is set.
pub open spec fn settings_lines(s: SettingsView) -> Seq<Seq<char>> {
    let head = seq![
        "# FUIDE settings"@,
        kv_line("palette"@, kind_name(s.palette)),
        kv_line("chamfer"@, bool_text(s.chamfer)),
        kv_line("compact"@, bool_text(s.compact)),
        kv_line("transparent"@, bool_text(s.transparent)),
    ];
    let mid = match s.log_height {
        Some(h) => seq![kv_line("log_height"@, h)],
        None => seq![],
    };
    head + mid + seq![
        kv_line("log_open"@, bool_text(s.log_open)),
        kv_line("agent"@, bool_text(s.agent)),
        kv_line("agent_confirm"@, bool_text(s.agent_confirm)),
    ]
}

/// Every line followed by `\n`.
pub open spec fn join_lines(ls: Seq<Seq<char>>) -> Seq<char>
    decreases ls.len(),
{
    if ls.len() == 0 {
        seq![]
    } else {
        join_lines(ls.drop_last()) + ls.last() + seq!['\n']
    }
}

/// What [`Settings::to_string`] writes.
pub open spec fn to_text(s: SettingsView) -> Seq<char> {
    join_lines(settings_lines(s))
}

fn push_line(out: &mut Vec<char>, key: &str, value: &[char])
    ensures
        final(out)@ == old(out)@ + kv_line(key@, value@) + seq!['\n'],
{
    push_str(out, key);
    out.push('=');
    push_all(out, value);
    out.push('\n');
    assert(out@ =~= old(out)@ + kv_line(key@, value@) + seq!['\n']);
}

fn bool_chars(b: bool) -> (r: Vec<char>)
    ensures
        r@ == bool_text(b),
{
    if b {
        chars_of("true")
    } else {
        chars_of("false")
    }
}

impl Settings {
    /// The settings file text (the format [`Settings::parse`] reads).
    pub fn to_string(&self) -> (r: String)
        ensures
            r@ == to_text(self@),
    {
        let ghost ls = settings_lines(self@);
        let mut out: Vec<char> = Vec::new();
        push_str(&mut out, "# FUIDE settings");
        out.push('\n');
        assert(out@ =~= join_lines(ls.take(1))) by {
            assert(ls.take(1).drop_last() =~= Seq::<Seq<char>>::empty());
            assert(ls.take(1).last() == ls[0]);
            assert(join_lines(ls.take(1)) == join_lines(Seq::<Seq<char>>::empty()) + ls[0] + seq!['\n']);
        }
        let name = chars_of(self.palette.name());
        push_line(&mut out, "palette", name.as_slice());
        assert(out@ =~= join_lines(ls.take(2))) by {
            assert(ls.take(2).drop_last() =~= ls.take(1));
        }
        push_line(&mut out, "chamfer", bool_chars(self.chamfer).as_slice());
        assert(out@ =~= join_lines(ls.take(3))) by {
            assert(ls.take(3).drop_last() =~= ls.take(2));
        }
        push_line(&mut out, "compact", bool_chars(self.compact).as_slice());
        assert(out@ =~= join_lines(ls.take(4))) by {
            assert(ls.take(4).drop_last() =~= ls.take(3));
        }
        push_line(&mut out, "transparent", bool_chars(self.transparent).as_slice());
        assert(out@ =~= join_lines(ls.take(5))) by {
            assert(ls.take(5).drop_last() =~= ls.take(4));
        }
        let ghost m: int = if self.log_height.is_some() {
            6
        } else {
            5
        };
        match &self.log_height {
            Some(h) => {
                let hv = chars_of(h.as_str());
                push_line(&mut out, "log_height", hv.as_slice());
                assert(out@ =~= join_lines(ls.take(6))) by {
                    assert(ls.take(6).drop_last() =~= ls.take(5));
                }
            },
            None => {},
        }
        push_line(&mut out, "log_open", bool_chars(self.log_open).as_slice());
        assert(out@ =~= join_lines(ls.take(m + 1))) by {
            assert(ls.take(m + 1).drop_last() =~= ls.take(m));
        }
        push_line(&mut out, "agent", bool_chars(self.agent).as_slice());
        assert(out@ =~= join_lines(ls.take(m + 2))) by {
            assert(ls.take(m + 2).drop_last() =~= ls.take(m + 1));
        }
        push_line(&mut out, "agent_confirm", bool_chars(self.agent_confirm).as_slice());
        assert(out@ =~= join_lines(ls.take(m + 3))) by {
            assert(ls.take(m + 3).drop_last() =~= ls.take(m + 2));
        }
        assert(ls.take(m + 3) =~= ls);
        string_of(out.as_slice())
    }
}

// ------------------------------------------------------------------------------- laws

proof fn lemma_trim_id(t: Seq<char>)
    requires
        t.len() == 0 || (!is_ws(t[0]) && !is_ws(t.last())),
    ensures
        trim(t) == t,
{
    if t.len() > 0 {
        assert(lead_ws(t) == 0);
        assert(t.skip(0) =~= t);
        assert(trail_ws(t) == 0);
        assert(t.take(t.len() as int) =~= t);
    } else {
        assert(lead_ws(t) == 0);
        assert(trim(t) =~= t);
    }
}

proof fn lemma_split_join(ls: Seq<Seq<char>>)
    requires
        forall|i: int, j: int|
            0 <= i < ls.len() && 0 <= j < ls[i].len() ==> #[trigger] ls[i][j] != '\n',
    ensures
        split_on(join_lines(ls), '\n') == ls.push(seq![]),
    decreases ls.len(),
{
    if ls.len() == 0 {
        assert(split_on(Seq::<char>::empty(), '\n') =~= seq![Seq::<char>::empty()]);
        assert(ls.push(seq![]) =~= seq![Seq::<char>::empty()]);
    } else {
        let init = ls.drop_last();
        let last = ls.last();
        assert forall|i: int, j: int| 0 <= i < init.len() && 0 <= j < init[i].len() implies #[trigger] init[i][j]
            != '\n' by {
            assert(init[i] == ls[i]);
        }
        lemma_split_join(init);
        let x = join_lines(init);
        assert forall|j: int| 0 <= j < last.len() implies #[trigger] last[j] != '\n' by {
            assert(last == ls[ls.len() - 1]);
        }
        lemma_split_on_extend(x, last, '\n');
        let whole = x + last + seq!['\n'];
        assert(whole.drop_last() =~= x + last);
        assert(split_on(x, '\n').drop_last() =~= init);
        assert(split_on(x, '\n').last() =~= Seq::<char>::empty());
        assert(split_on(x + last, '\n') =~= init.push(last));
        assert(init.push(last) =~= ls);
    }
}

proof fn lemma_apply_step(ls: Seq<Seq<char>>, k: int)
    requires
        0 <= k < ls.len(),
    ensures
        apply_lines(ls.take(k + 1)) == apply_line(apply_lines(ls.take(k)), ls[k]),
{
    assert(ls.take(k + 1).drop_last() =~= ls.take(k));
}

/// A key as written by [`Settings::to_string`]: non-empty, no `=`, no white space at either
/// end, not a comment.
pub open spec fn key_ok(k: Seq<char>) -> bool {
    &&& k.len() > 0
    &&& !is_ws(k[0])
    &&& !is_ws(k.last())
    &&& k[0] != '#'
    &&& forall|j: int| 0 <= j < k.len() ==> #[trigger] k[j] != '='
}

/// A `key=value` line applies that key and value.
proof fn lemma_kv_line(s: SettingsView, k: Seq<char>, v: Seq<char>)
    requires
        key_ok(k),
        v.len() == 0 || (!is_ws(v[0]) && !is_ws(v.last())),
    ensures
        apply_line(s, kv_line(k, v)) == apply_kv(s, k, v),
{
    let t = kv_line(k, v);
    assert(t[0] == k[0]);
    if v.len() > 0 {
        assert(t.last() == v.last());
    } else {
        assert(t.last() == '=');
    }
    lemma_trim_id(t);
    assert forall|j: int| 0 <= j < k.len() implies #[trigger] t[j] != '=' by {
        assert(t[j] == k[j]);
    }
    lemma_first_eq(t, k.len() as int);
    assert(t.take(k.len() as int) =~= k);
    assert(t.skip(k.len() + 1int) =~= v);
    lemma_trim_id(k);
    lemma_trim_id(v);
}

/// The value is written as is: no line break inside, no white space at either end.
pub open spec fn clean_value(v: Seq<char>) -> bool {
    &&& forall|j: int| 0 <= j < v.len() ==> #[trigger] v[j] != '\n'
    &&& (v.len() == 0 || (!is_ws(v[0]) && !is_ws(v.last())))
}

proof fn lemma_name_clean(p: PaletteKind)
    ensures
        clean_value(kind_name(p)),
        kind_named(kind_name(p)) == Some(p),
{
}

proof fn lemma_bool_clean(b: bool)
    ensures
        clean_value(bool_text(b)),
        (bool_text(b) == "true"@) == b,
        (bool_text(b) != "false"@) == b,
{
    reveal_strlit("true");
    reveal_strlit("false");
    assert("true"@ != "false"@) by {
        assert("true"@[0] != "false"@[0]);
    }
}

proof fn lemma_kv_line_single(k: Seq<char>, v: Seq<char>)
    requires
        forall|y: int| 0 <= y < k.len() ==> k[y] != '\n',
        clean_value(v),
    ensures
        forall|x: int| 0 <= x < kv_line(k, v).len() ==> #[trigger] kv_line(k, v)[x] != '\n',
{
    assert forall|x: int| 0 <= x < kv_line(k, v).len() implies #[trigger] kv_line(k, v)[x]
        != '\n' by {
        if x < k.len() {
            assert(kv_line(k, v)[x] == k[x]);
        } else if x > k.len() {
            assert(kv_line(k, v)[x] == v[x - k.len() - 1]);
        }
    }
}

proof fn lemma_lines_single(s: SettingsView)
    requires
        match s.log_height {
            Some(h) => clean_value(h),
            None => true,
        },
    ensures
        forall|i: int, j: int|
            0 <= i < settings_lines(s).len() && 0 <= j < settings_lines(s)[i].len()
                ==> #[trigger] settings_lines(s)[i][j] != '\n',
{
    reveal_strlit("# FUIDE settings");
    reveal_strlit("palette");
    reveal_strlit("chamfer");
    reveal_strlit("compact");
    reveal_strlit("transparent");
    reveal_strlit("log_height");
    reveal_strlit("log_open");
    reveal_strlit("agent");
    reveal_strlit("agent_confirm");
    lemma_name_clean(s.palette);
    lemma_bool_clean(s.chamfer);
    lemma_bool_clean(s.compact);
    lemma_bool_clean(s.transparent);
    lemma_bool_clean(s.log_open);
    lemma_bool_clean(s.agent);
    lemma_bool_clean(s.agent_confirm);
    let ls = settings_lines(s);
    let m: int = if s.log_height is Some {
        6
    } else {
        5
    };
    lemma_kv_line_single("palette"@, kind_name(s.palette));
    lemma_kv_line_single("chamfer"@, bool_text(s.chamfer));
    lemma_kv_line_single("compact"@, bool_text(s.compact));
    lemma_kv_line_single("transparent"@, bool_text(s.transparent));
    lemma_kv_line_single("log_open"@, bool_text(s.log_open));
    lemma_kv_line_single("agent"@, bool_text(s.agent));
    lemma_kv_line_single("agent_confirm"@, bool_text(s.agent_confirm));
    if m == 6 {
        lemma_kv_line_single("log_height"@, s.log_height.unwrap());
    }
    assert forall|i: int, j: int| 0 <= i < ls.len() && 0 <= j < ls[i].len() implies #[trigger] ls[i][j]
        != '\n' by {
        if i == 5 && m == 6 {
            assert(ls[5] == kv_line("log_height"@, s.log_height.unwrap()));
        } else if i == m {
            assert(ls[i] == kv_line("log_open"@, bool_text(s.log_open)));
        } else if i == m + 1 {
            assert(ls[i] == kv_line("agent"@, bool_text(s.agent)));
        } else if i == m + 2 {
            assert(ls[i] == kv_line("agent_confirm"@, bool_text(s.agent_confirm)));
        }
    }
}

proof fn lemma_set_palette(x: SettingsView, p: PaletteKind)
    ensures
        apply_kv(x, "palette"@, kind_name(p)) == (SettingsView { palette: p, ..x }),
        key_ok("palette"@),
{
    reveal_strlit("palette");
    lemma_name_clean(p);
}

proof fn lemma_set_chamfer(x: SettingsView, b: bool)
    ensures
        apply_kv(x, "chamfer"@, bool_text(b)) == (SettingsView { chamfer: b, ..x }),
        key_ok("chamfer"@),
{
    reveal_strlit("palette");
    reveal_strlit("chamfer");
    assert("chamfer"@[0] != "palette"@[0]);
    lemma_bool_clean(b);
}

proof fn lemma_set_compact(x: SettingsView, b: bool)
    ensures
        apply_kv(x, "compact"@, bool_text(b)) == (SettingsView { compact: b, ..x }),
        key_ok("compact"@),
{
    reveal_strlit("palette");
    reveal_strlit("chamfer");
    reveal_strlit("compact");
    assert("compact"@[0] != "palette"@[0]);
    assert("compact"@[1] != "chamfer"@[1]);
    lemma_bool_clean(b);
}

proof fn lemma_set_transparent(x: SettingsView, b: bool)
    ensures
        apply_kv(x, "transparent"@, bool_text(b)) == (SettingsView { transparent: b, ..x }),
        key_ok("transparent"@),
{
    reveal_strlit("palette");
    reveal_strlit("chamfer");
    reveal_strlit("compact");
    reveal_strlit("transparent");
    assert("transparent"@[0] != "palette"@[0]);
    assert("transparent"@[0] != "chamfer"@[0]);
    assert("transparent"@[0] != "compact"@[0]);
    lemma_bool_clean(b);
}

proof fn lemma_set_log_height(x: SettingsView, h: Seq<char>)
    ensures
        apply_kv(x, "log_height"@, h) == (SettingsView { log_height: Some(h), ..x }),
        key_ok("log_height"@),
{
    reveal_strlit("transparent");
    reveal_strlit("log_height");
    assert("log_height"@[0] != "transparent"@[0]);
    reveal_strlit("palette");
    reveal_strlit("chamfer");
    reveal_strlit("compact");
    reveal_strlit("log_height");
    assert("log_height"@[0] != "palette"@[0]);
    assert("log_height"@[0] != "chamfer"@[0]);
    assert("log_height"@[0] != "compact"@[0]);
}

proof fn lemma_set_log_open(x: SettingsView, b: bool)
    ensures
        apply_kv(x, "log_open"@, bool_text(b)) == (SettingsView { log_open: b, ..x }),
        key_ok("log_open"@),
{
    reveal_strlit("transparent");
    reveal_strlit("log_open");
    assert("log_open"@[0] != "transparent"@[0]);
    reveal_strlit("palette");
    reveal_strlit("chamfer");
    reveal_strlit("compact");
    reveal_strlit("log_height");
    reveal_strlit("log_open");
    assert("log_open"@[0] != "palette"@[0]);
    assert("log_open"@[0] != "chamfer"@[0]);
    assert("log_open"@[0] != "compact"@[0]);
    assert("log_open"@[4] != "log_height"@[4]);
    lemma_bool_clean(b);
}

proof fn lemma_set_agent(x: SettingsView, b: bool)
    ensures
        apply_kv(x, "agent"@, bool_text(b)) == (SettingsView { agent: b, ..x }),
        key_ok("agent"@),
{
    reveal_strlit("transparent");
    reveal_strlit("agent");
    assert("agent"@[0] != "transparent"@[0]);
    reveal_strlit("palette");
    reveal_strlit("chamfer");
    reveal_strlit("compact");
    reveal_strlit("log_height");
    reveal_strlit("log_open");
    reveal_strlit("agent");
    assert("agent"@[0] != "palette"@[0]);
    assert("agent"@[0] != "chamfer"@[0]);
    assert("agent"@[0] != "compact"@[0]);
    assert("agent"@[0] != "log_height"@[0]);
    assert("agent"@[0] != "log_open"@[0]);
    lemma_bool_clean(b);
}

proof fn lemma_set_agent_confirm(x: SettingsView, b: bool)
    ensures
        apply_kv(x, "agent_confirm"@, bool_text(b)) == (SettingsView { agent_confirm: b, ..x }),
        key_ok("agent_confirm"@),
{
    reveal_strlit("transparent");
    reveal_strlit("agent_confirm");
    assert("agent_confirm"@[0] != "transparent"@[0]);
    reveal_strlit("palette");
    reveal_strlit("chamfer");
    reveal_strlit("compact");
    reveal_strlit("log_height");
    reveal_strlit("log_open");
    reveal_strlit("agent");
    reveal_strlit("agent_confirm");
    assert("agent_confirm"@[0] != "palette"@[0]);
    assert("agent_confirm"@[0] != "chamfer"@[0]);
    assert("agent_confirm"@[0] != "compact"@[0]);
    assert("agent_confirm"@[0] != "log_height"@[0]);
    assert("agent_confirm"@[0] != "log_open"@[0]);
    assert("agent_confirm"@.len() != "agent"@.len());
    lemma_bool_clean(b);
}

/// Writing the settings and reading them back gives the same settings (as long as the
/// `log_height` text is a single line without surrounding white space, as a number is).
pub proof fn law_settings_round_trip(s: SettingsView)
    requires
        match s.log_height {
            Some(h) => clean_value(h),
            None => true,
        },
    ensures
        parse_spec(to_text(s)) == s,
{
    let ls = settings_lines(s);
    lemma_lines_single(s);
    lemma_split_join(ls);
    let all = ls.push(seq![]);
    assert(all.drop_last() =~= ls);
    assert(apply_line(apply_lines(ls), seq![]) == apply_lines(ls)) by {
        lemma_trim_id(Seq::<char>::empty());
    }
    lemma_apply_all(s);
}

#[verifier::rlimit(40)]
proof fn lemma_apply_all(s: SettingsView)
    requires
        match s.log_height {
            Some(h) => clean_value(h),
            None => true,
        },
    ensures
        apply_lines(settings_lines(s)) == s,
{
    lemma_name_clean(s.palette);
    lemma_bool_clean(s.chamfer);
    lemma_bool_clean(s.compact);
    lemma_bool_clean(s.transparent);
    lemma_bool_clean(s.log_open);
    lemma_bool_clean(s.agent);
    lemma_bool_clean(s.agent_confirm);
    let ls = settings_lines(s);
    let m: int = if s.log_height is Some {
        6
    } else {
        5
    };
    let d = defaults(PaletteKind::Cyan);
    assert(ls.take(0) =~= Seq::<Seq<char>>::empty());
    lemma_apply_step(ls, 0);
    assert(apply_lines(ls.take(1)) == d) by {
        reveal_strlit("# FUIDE settings");
        lemma_trim_id(ls[0]);
    }
    lemma_apply_step(ls, 1);
    lemma_set_palette(apply_lines(ls.take(1)), s.palette);
    lemma_kv_line(apply_lines(ls.take(1)), "palette"@, kind_name(s.palette));
    lemma_apply_step(ls, 2);
    lemma_set_chamfer(apply_lines(ls.take(2)), s.chamfer);
    lemma_kv_line(apply_lines(ls.take(2)), "chamfer"@, bool_text(s.chamfer));
    lemma_apply_step(ls, 3);
    lemma_set_compact(apply_lines(ls.take(3)), s.compact);
    lemma_kv_line(apply_lines(ls.take(3)), "compact"@, bool_text(s.compact));
    lemma_apply_step(ls, 4);
    lemma_set_transparent(apply_lines(ls.take(4)), s.transparent);
    lemma_kv_line(apply_lines(ls.take(4)), "transparent"@, bool_text(s.transparent));
    if m == 6 {
        let h = s.log_height.unwrap();
        lemma_apply_step(ls, 5);
        lemma_set_log_height(apply_lines(ls.take(5)), h);
        lemma_kv_line(apply_lines(ls.take(5)), "log_height"@, h);
    }
    lemma_apply_step(ls, m);
    lemma_set_log_open(apply_lines(ls.take(m)), s.log_open);
    lemma_kv_line(apply_lines(ls.take(m)), "log_open"@, bool_text(s.log_open));
    lemma_apply_step(ls, m + 1);
    lemma_set_agent(apply_lines(ls.take(m + 1)), s.agent);
    lemma_kv_line(apply_lines(ls.take(m + 1)), "agent"@, bool_text(s.agent));
    lemma_apply_step(ls, m + 2);
    lemma_set_agent_confirm(apply_lines(ls.take(m + 2)), s.agent_confirm);
    lemma_kv_line(apply_lines(ls.take(m + 2)), "agent_confirm"@, bool_text(s.agent_confirm));
    assert(ls.take(m + 3) =~= ls);
}


/// The keys the settings file knows.
pub open spec fn known_key(k: Seq<char>) -> bool {
    k == "palette"@ || k == "chamfer"@ || k == "compact"@ || k == "transparent"@
        || k == "log_height"@ || k == "log_open"@
        || k == "agent"@ || k == "agent_confirm"@
}

/// A line the format does not know: blank, a comment, without `=`, or with an unknown key.
pub open spec fn ignorable(line: Seq<char>) -> bool {
    let t = trim(line);
    t.len() == 0 || t[0] == '#' || first_eq(t) is None || !known_key(trim(t.take(first_eq(t)->Some_0)))
}

/// Lines the format does not know — blank lines, comments, lines without `=`, unknown keys —
/// change nothing, so old and foreign files stay readable.
pub proof fn law_unknown_lines_are_ignored(s: SettingsView, line: Seq<char>)
    requires
        ignorable(line),
    ensures
        apply_line(s, line) == s,
{
}

/// Appending a line the format does not know to a settings text leaves what it reads
/// unchanged.
pub proof fn law_unknown_line_appended(text: Seq<char>, line: Seq<char>)
    requires
        ignorable(line),
        forall|j: int| 0 <= j < line.len() ==> #[trigger] line[j] != '\n',
    ensures
        parse_spec(text + seq!['\n'] + line) == parse_spec(text),
{
    let tn = text + seq!['\n'];
    assert(tn.drop_last() =~= text);
    assert(tn.last() == '\n');
    assert(split_on(tn, '\n') == split_on(text, '\n').push(seq![]));
    lemma_split_on_extend(tn, line, '\n');
    let ls = split_on(text, '\n');
    assert(ls.push(seq![]).drop_last() =~= ls);
    assert(Seq::<char>::empty() + line =~= line);
    assert(split_on(tn + line, '\n') =~= ls.push(line));
    assert(ls.push(line).drop_last() =~= ls);
    law_unknown_lines_are_ignored(apply_lines(ls), line);
}

/// An empty file gives the defaults (every key missing keeps its default).
pub proof fn law_empty_file_gives_defaults()
    ensures
        parse_spec(Seq::empty()) == defaults(PaletteKind::Cyan),
{
    let e = Seq::<char>::empty();
    assert(split_on(e, '\n') == seq![e]);
    let ls = seq![e];
    assert(ls.drop_last() =~= Seq::<Seq<char>>::empty());
    assert(trim(e) =~= e);
    assert(apply_lines(ls.drop_last()) == defaults(PaletteKind::Cyan));
    assert(apply_line(defaults(PaletteKind::Cyan), e) == defaults(PaletteKind::Cyan));
    assert(apply_lines(ls) == defaults(PaletteKind::Cyan));
}

// ------------------------------------------------------------------------------- location

/// The platform families that keep settings in different places.
#[derive(Clone, Copy, Debug, PartialEq, Eq, Structural)]
pub enum Platform {
    /// macOS and iOS: `~/Library/Application Support/FUIDE`.
    Apple,
    /// Windows: `%APPDATA%\FUIDE`.
    Windows,
    /// Everything else: `$XDG_CONFIG_HOME/fuide`, else `~/.config/fuide`.
    Other,
}

pub open spec fn opt_text(o: Option<&str>) -> Option<Seq<char>> {
    match o {
        Some(s) => Some(s@),
        None => None,
    }
}

/// The settings directory: `FUIDE_CONFIG_DIR` (`override_dir`) when set, else the platform's
/// place under `HOME` / `APPDATA` / `XDG_CONFIG_HOME`; `None` when the variable that place
/// needs is unset.
pub open spec fn config_dir_spec(
    override_dir: Option<Seq<char>>,
    platform: Platform,
    home: Option<Seq<char>>,
    appdata: Option<Seq<char>>,
    xdg: Option<Seq<char>>,
) -> Option<Seq<char>> {
    match override_dir {
        Some(d) => Some(d),
        None => match platform {
            Platform::Apple => match home {
                Some(h) => Some(join_path(h, "Library/Application Support/FUIDE"@)),
                None => None,
            },
            Platform::Windows => match appdata {
                Some(a) => Some(join_path(a, "FUIDE"@)),
                None => None,
            },
            Platform::Other => match xdg {
                Some(x) => Some(join_path(x, "fuide"@)),
                None => match home {
                    Some(h) => Some(join_path(h, ".config/fuide"@)),
                    None => None,
                },
            },
        },
    }
}

fn joined(base: &str, rest: &str) -> (r: String)
    ensures
        r@ == join_path(base@, rest@),
{
    let p = join_path_exec(chars_of(base).as_slice(), chars_of(rest).as_slice());
    string_of(p.as_slice())
}

/// `config_dir_spec` of the environment values the app read.
pub fn config_dir(
    override_dir: Option<&str>,
    platform: Platform,
    home: Option<&str>,
    appdata: Option<&str>,
    xdg: Option<&str>,
) -> (r: Option<String>)
    ensures
        match r {
            Some(s) => config_dir_spec(opt_text(override_dir), platform, opt_text(home), opt_text(appdata), opt_text(xdg)) == Some(s@),
            None => config_dir_spec(opt_text(override_dir), platform, opt_text(home), opt_text(appdata), opt_text(xdg)) is None,
        },
{
    if let Some(d) = override_dir {
        return Some(string_of(chars_of(d).as_slice()));
    }
    match platform {
        Platform::Apple => match home {
            Some(h) => Some(joined(h, "Library/Application Support/FUIDE")),
            None => None,
        },
        Platform::Windows => match appdata {
            Some(a) => Some(joined(a, "FUIDE")),
            None => None,
        },
        Platform::Other => match xdg {
            Some(x) => Some(joined(x, "fuide")),
            None => match home {
                Some(h) => Some(joined(h, ".config/fuide")),
                None => None,
            },
        },
    }
}

/// `<dir>/<app_id>.conf`.
pub fn settings_file(dir: &str, app_id: &str) -> (r: String)
    ensures
        r@ == join_path(dir@, app_id@ + ".conf"@),
{
    let mut name: Vec<char> = Vec::new();
    push_str(&mut name, app_id);
    push_str(&mut name, ".conf");
    let p = join_path_exec(chars_of(dir).as_slice(), name.as_slice());
    string_of(p.as_slice())
}

} // verus!
