//! Finding a widget by its label: exact, then ASCII case-insensitive, then substring; only the
//! dialog's parts while a modal is up.

use vstd::prelude::*;

use crate::fmt::{decimal, push_decimal};
use super::report::string_views;
use crate::text::{
    chars_of, contains, contains_seq, dedup, dedup_vec, eq_ignore_ascii_case,
    eq_ignore_ascii_case_exec, lowercase, push_join, push_str, seq_eq, string_of, to_lowercase,
    trim, trim_vec, views, words, words_vec, push_all,
};

verus! {

/// One interactive widget as the agent sees it. The app keeps each widget's egui id and rect
/// beside it, at the same index.
#[derive(Clone, Debug, PartialEq)]
pub struct Widget {
    /// `button`, `item`, `toggle`, `input`, `slider`, `radio`, `combo`, `link`, `label` or
    /// `other`.
    pub role: String,
    pub label: String,
    pub enabled: bool,
    pub selected: Option<bool>,
    /// Current text of an input.
    pub value: Option<String>,
    /// Drawn on the foreground layer (a modal dialog).
    pub foreground: bool,
    /// The widget's centre, rounded, as `x,y`.
    pub at: String,
}

/// A modal is up: some widget is on the foreground layer.
pub open spec fn is_modal(ws: Seq<Widget>) -> bool {
    exists|i: int| 0 <= i < ws.len() && (#[trigger] ws[i]).foreground
}

/// `0, 1, …, n - 1`.
pub open spec fn indices(n: nat) -> Seq<usize> {
    Seq::new(n, |i: int| i as usize)
}

/// The indices of `from` whose widget passes `p`, in order.
pub open spec fn keep(ws: Seq<Widget>, from: Seq<usize>, p: spec_fn(Widget) -> bool) -> Seq<usize>
    decreases from.len(),
{
    if from.len() == 0 {
        seq![]
    } else {
        let r = keep(ws, from.drop_last(), p);
        if p(ws[from.last() as int]) {
            r.push(from.last())
        } else {
            r
        }
    }
}

/// The widgets the agent may address, by index: when a modal is up, only its parts.
pub open spec fn addressable(ws: Seq<Widget>) -> Seq<usize> {
    let modal = is_modal(ws);
    keep(ws, indices(ws.len()), |w: Widget| !modal || w.foreground)
}

/// A test of one widget against a text.
#[derive(Clone, Copy, Debug, PartialEq, Eq, Structural)]
pub enum Test {
    /// The label equals the text.
    Exact,
    /// The label equals the text ignoring ASCII case.
    NoCase,
    /// The lower-cased label contains the text.
    Contains,
    /// The role equals the text.
    Role,
}


/// std's `str::to_lowercase` as a function on texts.
pub open spec fn std_lower() -> spec_fn(Seq<char>) -> Seq<char> {
    |s: Seq<char>| to_lowercase(s)
}

/// Test `t` against `arg`, with `low` giving a label's lower-cased form.
pub open spec fn passes_low(t: Test, arg: Seq<char>, low: spec_fn(Seq<char>) -> Seq<char>) -> spec_fn(Widget) -> bool {
    |w: Widget|
        match t {
            Test::Exact => w.label@ == arg,
            Test::NoCase => eq_ignore_ascii_case(w.label@, arg),
            Test::Contains => contains_seq(low(w.label@), arg),
            Test::Role => w.role@ == arg,
        }
}

pub open spec fn passes(t: Test, arg: Seq<char>) -> spec_fn(Widget) -> bool {
    passes_low(t, arg, std_lower())
}

/// Exact label, else ASCII case-insensitive label, else a lower-cased label containing `lw`
/// (the lower-cased `wanted`).
pub open spec fn tiers_low(ws: Seq<Widget>, pool: Seq<usize>, wanted: Seq<char>, low: spec_fn(Seq<char>) -> Seq<char>, lw: Seq<char>) -> Seq<usize> {
    let a = keep(ws, pool, passes_low(Test::Exact, wanted, low));
    let b = keep(ws, pool, passes_low(Test::NoCase, wanted, low));
    if a.len() > 0 {
        a
    } else if b.len() > 0 {
        b
    } else {
        keep(ws, pool, passes_low(Test::Contains, lw, low))
    }
}

/// Exact label, else ASCII case-insensitive label, else lower-cased substring.
pub open spec fn tiers(ws: Seq<Widget>, pool: Seq<usize>, wanted: Seq<char>) -> Seq<usize> {
    tiers_low(ws, pool, wanted, std_lower(), to_lowercase(wanted))
}

/// The widgets that answer to `label` (trimmed), best tier first; with `prefer`, the widgets
/// of that role are searched first. `low` and `lw` as in [`tiers_low`].
pub open spec fn hits_low(ws: Seq<Widget>, label: Seq<char>, prefer: Option<Seq<char>>, low: spec_fn(Seq<char>) -> Seq<char>, lw: Seq<char>) -> Seq<usize> {
    let pool = addressable(ws);
    let wanted = trim(label);
    let first = match prefer {
        Some(r) => tiers_low(ws, keep(ws, pool, passes_low(Test::Role, r, low)), wanted, low, lw),
        None => Seq::empty(),
    };
    if first.len() > 0 {
        first
    } else {
        tiers_low(ws, pool, wanted, low, lw)
    }
}

pub open spec fn hits(ws: Seq<Widget>, label: Seq<char>, prefer: Option<Seq<char>>) -> Seq<usize> {
    hits_low(ws, label, prefer, std_lower(), to_lowercase(trim(label)))
}

/// The lower-cased label contains one of `lws`.
pub open spec fn mentions_low(lws: Seq<Seq<char>>, low: spec_fn(Seq<char>) -> Seq<char>) -> spec_fn(Widget) -> bool {
    |w: Widget| exists|j: int| 0 <= j < lws.len() && contains_seq(low(w.label@), #[trigger] lws[j])
}

pub open spec fn mentions(lws: Seq<Seq<char>>) -> spec_fn(Widget) -> bool {
    mentions_low(lws, std_lower())
}

/// Up to six labels of addressable widgets whose lower-cased label contains one of `lws` (the
/// lower-cased words of the wanted label), neighbouring repeats collapsed.
pub open spec fn near_low(ws: Seq<Widget>, low: spec_fn(Seq<char>) -> Seq<char>, lws: Seq<Seq<char>>) -> Seq<Seq<char>> {
    let near = keep(ws, addressable(ws), mentions_low(lws, low)).map_values(|i: usize| ws[i as int].label@);
    let d = dedup(near);
    if d.len() > 6 {
        d.take(6)
    } else {
        d
    }
}

/// Up to six labels of addressable widgets that contain a word of `wanted` (lower-cased),
/// neighbouring repeats collapsed.
pub open spec fn near_labels(ws: Seq<Widget>, wanted: Seq<char>) -> Seq<Seq<char>> {
    near_low(ws, std_lower(), words(wanted).map_values(|x: Seq<char>| to_lowercase(x)))
}

/// The refusal for a label that matches nothing.
pub open spec fn no_widget(wanted: Seq<char>, near: Seq<Seq<char>>) -> Seq<char> {
    if near.len() == 0 {
        "no widget labelled `"@ + wanted + "` (call `observe` for the current labels)"@
    } else {
        "no widget labelled `"@ + wanted + "`; similar: "@ + crate::text::join(near, ", "@)
    }
}

/// The lookup with the lower-cased forms given: `low` for labels, `lw` for the trimmed wanted
/// label, `lws` for its words. The index of hit number `nth` (counted from 1; 0 counts as 1),
/// or why there is none.
pub open spec fn find_low(
    ws: Seq<Widget>,
    label: Seq<char>,
    nth: nat,
    prefer: Option<Seq<char>>,
    low: spec_fn(Seq<char>) -> Seq<char>,
    lw: Seq<char>,
    lws: Seq<Seq<char>>,
) -> Result<usize, Seq<char>> {
    let h = hits_low(ws, label, prefer, low, lw);
    let wanted = trim(label);
    let k = if nth == 0 { 0 } else { nth - 1 };
    if k < h.len() {
        Ok(h[k])
    } else if h.len() == 0 {
        Err(no_widget(wanted, near_low(ws, low, lws)))
    } else {
        Err("only "@ + decimal(h.len()) + " widget(s) labelled `"@ + wanted + "`, asked for #"@
            + decimal(nth))
    }
}

/// What [`Agent::find`](super::Agent::find) answers: [`find_low`] with std's lower-casing.
pub open spec fn find_spec(ws: Seq<Widget>, label: Seq<char>, nth: nat, prefer: Option<Seq<char>>) -> Result<usize, Seq<char>> {
    find_low(
        ws,
        label,
        nth,
        prefer,
        std_lower(),
        to_lowercase(trim(label)),
        words(trim(label)).map_values(|x: Seq<char>| to_lowercase(x)),
    )
}

/// Lower-cased labels given for `ws`, one per widget, the same for equal labels.
pub open spec fn lowered_fits(ws: Seq<Widget>, ls: Seq<Seq<char>>) -> bool {
    &&& ls.len() == ws.len()
    &&& forall|i: int, j: int|
        0 <= i < ws.len() && 0 <= j < ws.len() && #[trigger] ws[i].label@ == #[trigger] ws[j].label@
            ==> ls[i] == ls[j]
}

/// The lower-casing that `ls` gives for the labels of `ws` (other texts stay as they are).
pub open spec fn aligned_low(ws: Seq<Widget>, ls: Seq<Seq<char>>) -> spec_fn(Seq<char>) -> Seq<char> {
    |s: Seq<char>|
        if exists|i: int| 0 <= i < ws.len() && (#[trigger] ws[i]).label@ == s {
            ls[choose|i: int| 0 <= i < ws.len() && (#[trigger] ws[i]).label@ == s]
        } else {
            s
        }
}

proof fn lemma_keep_bounded(ws: Seq<Widget>, from: Seq<usize>, p: spec_fn(Widget) -> bool)
    requires
        forall|j: int| 0 <= j < from.len() ==> #[trigger] from[j] < ws.len(),
    ensures
        forall|j: int| 0 <= j < keep(ws, from, p).len() ==> #[trigger] keep(ws, from, p)[j] < ws.len(),
        keep(ws, from, p).len() <= from.len(),
    decreases from.len(),
{
    if from.len() > 0 {
        lemma_keep_bounded(ws, from.drop_last(), p);
    }
}


/// Whether widget `w` passes test `t` against `arg`, `low_label` being its lower-cased label.
fn passes_exec(w: &Widget, low_label: &[char], t: Test, arg: &[char], Ghost(low): Ghost<spec_fn(Seq<char>) -> Seq<char>>) -> (r: bool)
    requires
        low(w.label@) == low_label@,
    ensures
        r == (passes_low(t, arg@, low))(*w),
{
    match t {
        Test::Exact => seq_eq(chars_of(w.label.as_str()).as_slice(), arg),
        Test::NoCase => eq_ignore_ascii_case_exec(chars_of(w.label.as_str()).as_slice(), arg),
        Test::Contains => contains(low_label, arg),
        Test::Role => seq_eq(chars_of(w.role.as_str()).as_slice(), arg),
    }
}

/// `keep(ws, from, passes_low(t, arg, low))`.
fn keep_exec(ws: &[Widget], lowered: &[Vec<char>], from: &[usize], t: Test, arg: &[char], Ghost(low): Ghost<spec_fn(Seq<char>) -> Seq<char>>) -> (r: Vec<usize>)
    requires
        lowered.len() == ws.len(),
        forall|i: int| 0 <= i < ws.len() ==> low(#[trigger] ws@[i].label@) == lowered@[i]@,
        forall|j: int| 0 <= j < from.len() ==> #[trigger] from@[j] < ws.len(),
    ensures
        r@ == keep(ws@, from@, passes_low(t, arg@, low)),
{
    let mut r: Vec<usize> = Vec::new();
    let mut k: usize = 0;
    while k < from.len()
        invariant
            k <= from.len(),
            lowered.len() == ws.len(),
            forall|i: int| 0 <= i < ws.len() ==> low(#[trigger] ws@[i].label@) == lowered@[i]@,
            forall|j: int| 0 <= j < from.len() ==> #[trigger] from@[j] < ws.len(),
            r@ == keep(ws@, from@.take(k as int), passes_low(t, arg@, low)),
        decreases from.len() - k,
    {
        proof {
            assert(from@.take(k + 1).drop_last() =~= from@.take(k as int));
            assert(from@.take(k + 1).last() == from@[k as int]);
        }
        let i = from[k];
        assert(low(ws@[i as int].label@) == lowered@[i as int]@);
        if passes_exec(&ws[i], lowered[i].as_slice(), t, arg, Ghost(low)) {
            r.push(i);
        }
        k = k + 1;
    }
    proof {
        assert(from@.take(k as int) =~= from@);
    }
    r
}

/// `addressable(ws)`.
pub fn addressable_exec(ws: &[Widget]) -> (r: Vec<usize>)
    ensures
        r@ == addressable(ws@),
        forall|j: int| 0 <= j < r.len() ==> #[trigger] r@[j] < ws.len(),
{
    let mut modal = false;
    let mut i: usize = 0;
    while i < ws.len()
        invariant
            i <= ws.len(),
            modal == exists|j: int| 0 <= j < i && (#[trigger] ws@[j]).foreground,
        decreases ws.len() - i,
    {
        if ws[i].foreground {
            modal = true;
        }
        i = i + 1;
    }
    let ghost p = |w: Widget| !modal || w.foreground;
    let ghost all = indices(ws@.len());
    let mut r: Vec<usize> = Vec::new();
    let mut k: usize = 0;
    while k < ws.len()
        invariant
            k <= ws.len(),
            modal == is_modal(ws@),
            all == indices(ws@.len()),
            p == (|w: Widget| !modal || w.foreground),
            r@ == keep(ws@, all.take(k as int), p),
        decreases ws.len() - k,
    {
        proof {
            assert(all.take(k + 1).drop_last() =~= all.take(k as int));
            assert(all.take(k + 1).last() == k);
        }
        if !modal || ws[k].foreground {
            r.push(k);
        }
        k = k + 1;
    }
    proof {
        assert(all.take(k as int) =~= all);
        assert(forall|j: int| 0 <= j < all.len() ==> #[trigger] all[j] < ws.len());
        lemma_keep_bounded(ws@, all, p);
    }
    r
}

/// `tiers_low(ws, pool, wanted, low, lw)`.
fn tiers_exec(ws: &[Widget], lowered: &[Vec<char>], pool: &[usize], wanted: &[char], lw: &[char], Ghost(low): Ghost<spec_fn(Seq<char>) -> Seq<char>>) -> (r: Vec<usize>)
    requires
        lowered.len() == ws.len(),
        forall|i: int| 0 <= i < ws.len() ==> low(#[trigger] ws@[i].label@) == lowered@[i]@,
        forall|j: int| 0 <= j < pool.len() ==> #[trigger] pool@[j] < ws.len(),
    ensures
        r@ == tiers_low(ws@, pool@, wanted@, low, lw@),
        forall|j: int| 0 <= j < r.len() ==> #[trigger] r@[j] < ws.len(),
{
    proof {
        lemma_keep_bounded(ws@, pool@, passes_low(Test::Exact, wanted@, low));
        lemma_keep_bounded(ws@, pool@, passes_low(Test::NoCase, wanted@, low));
        lemma_keep_bounded(ws@, pool@, passes_low(Test::Contains, lw@, low));
    }
    let a = keep_exec(ws, lowered, pool, Test::Exact, wanted, Ghost(low));
    if a.len() > 0 {
        return a;
    }
    let b = keep_exec(ws, lowered, pool, Test::NoCase, wanted, Ghost(low));
    if b.len() > 0 {
        return b;
    }
    keep_exec(ws, lowered, pool, Test::Contains, lw, Ghost(low))
}

/// `hits_low(ws, label, prefer, low, lw)`.
fn hits_exec(ws: &[Widget], lowered: &[Vec<char>], label: &[char], prefer: Option<&str>, lw: &[char], Ghost(low): Ghost<spec_fn(Seq<char>) -> Seq<char>>) -> (r: Vec<usize>)
    requires
        lowered.len() == ws.len(),
        forall|i: int| 0 <= i < ws.len() ==> low(#[trigger] ws@[i].label@) == lowered@[i]@,
    ensures
        r@ == hits_low(ws@, label@, match prefer { Some(s) => Some(s@), None => None }, low, lw@),
        forall|j: int| 0 <= j < r.len() ==> #[trigger] r@[j] < ws.len(),
{
    let pool = addressable_exec(ws);
    let w = trim_vec(label);
    let mut first: Vec<usize> = Vec::new();
    if let Some(role) = prefer {
        let rv = chars_of(role);
        proof {
            lemma_keep_bounded(ws@, pool@, passes_low(Test::Role, rv@, low));
        }
        let same = keep_exec(ws, lowered, pool.as_slice(), Test::Role, rv.as_slice(), Ghost(low));
        first = tiers_exec(ws, lowered, same.as_slice(), w.as_slice(), lw, Ghost(low));
    }
    if first.len() > 0 {
        first
    } else {
        tiers_exec(ws, lowered, pool.as_slice(), w.as_slice(), lw, Ghost(low))
    }
}

/// The lower-cased label `low_label` of a widget contains one of `lws`.
fn mentions_exec(w: &Widget, low_label: &[char], lws: &[Vec<char>], Ghost(low): Ghost<spec_fn(Seq<char>) -> Seq<char>>) -> (r: bool)
    requires
        low(w.label@) == low_label@,
    ensures
        r == (mentions_low(views(lws@), low))(*w),
{
    let mut j: usize = 0;
    while j < lws.len()
        invariant
            j <= lws.len(),
            low(w.label@) == low_label@,
            forall|k: int| 0 <= k < j ==> !contains_seq(low_label@, #[trigger] views(lws@)[k]),
        decreases lws.len() - j,
    {
        if contains(low_label, lws[j].as_slice()) {
            assert(contains_seq(low_label@, views(lws@)[j as int]));
            return true;
        }
        j = j + 1;
    }
    false
}

/// `near_low(ws, low, lws)`.
fn near_exec(ws: &[Widget], lowered: &[Vec<char>], lws: &[Vec<char>], Ghost(low): Ghost<spec_fn(Seq<char>) -> Seq<char>>) -> (r: Vec<Vec<char>>)
    requires
        lowered.len() == ws.len(),
        forall|i: int| 0 <= i < ws.len() ==> low(#[trigger] ws@[i].label@) == lowered@[i]@,
    ensures
        views(r@) == near_low(ws@, low, views(lws@)),
{
    let pool = addressable_exec(ws);
    let ghost p = mentions_low(views(lws@), low);
    let mut near: Vec<Vec<char>> = Vec::new();
    let ghost lab = |i: usize| ws@[i as int].label@;
    let mut k: usize = 0;
    while k < pool.len()
        invariant
            k <= pool.len(),
            lowered.len() == ws.len(),
            forall|i: int| 0 <= i < ws.len() ==> low(#[trigger] ws@[i].label@) == lowered@[i]@,
            forall|q: int| 0 <= q < pool.len() ==> #[trigger] pool@[q] < ws.len(),
            p == mentions_low(views(lws@), low),
            lab == (|i: usize| ws@[i as int].label@),
            views(near@) == keep(ws@, pool@.take(k as int), p).map_values(lab),
        decreases pool.len() - k,
    {
        proof {
            assert(pool@.take(k + 1).drop_last() =~= pool@.take(k as int));
            assert(pool@.take(k + 1).last() == pool@[k as int]);
        }
        let i = pool[k];
        let ghost before = keep(ws@, pool@.take(k as int), p);
        assert(low(ws@[i as int].label@) == lowered@[i as int]@);
        if mentions_exec(&ws[i], lowered[i].as_slice(), lws, Ghost(low)) {
            let ghost old_near = near@;
            near.push(chars_of(ws[i].label.as_str()));
            proof {
                assert(views(near@) =~= views(old_near).push(ws@[i as int].label@));
                assert(p(ws@[i as int]));
                assert(keep(ws@, pool@.take(k + 1), p) == before.push(i));
                assert(views(near@) =~= before.push(i).map_values(lab));
            }
        }
        k = k + 1;
    }
    proof {
        assert(pool@.take(k as int) =~= pool@);
    }
    let mut d = dedup_vec(near);
    if d.len() > 6 {
        d.truncate(6);
        proof {
            assert(views(d@) =~= dedup(views(near@)).take(6));
        }
    }
    d
}

fn vecs_of(v: &[String]) -> (r: Vec<Vec<char>>)
    ensures
        views(r@) == string_views(v@),
{
    let mut r: Vec<Vec<char>> = Vec::new();
    let mut i: usize = 0;
    while i < v.len()
        invariant
            i <= v.len(),
            views(r@) == string_views(v@).take(i as int),
        decreases v.len() - i,
    {
        let ghost before = r@;
        r.push(chars_of(v[i].as_str()));
        proof {
            assert(views(r@) =~= views(before).push(v@[i as int]@));
            assert(string_views(v@).take(i + 1) =~= string_views(v@).take(i as int).push(v@[i as int]@));
        }
        i = i + 1;
    }
    assert(string_views(v@).take(i as int) =~= string_views(v@));
    r
}

proof fn lemma_aligned(ws: Seq<Widget>, ls: Seq<Seq<char>>)
    requires
        lowered_fits(ws, ls),
    ensures
        forall|i: int| 0 <= i < ws.len() ==> (aligned_low(ws, ls))(#[trigger] ws[i].label@) == ls[i],
{
    assert forall|i: int| 0 <= i < ws.len() implies (aligned_low(ws, ls))(#[trigger] ws[i].label@) == ls[i] by {
        let s = ws[i].label@;
        assert(exists|k: int| 0 <= k < ws.len() && (#[trigger] ws[k]).label@ == s);
        let c = choose|k: int| 0 <= k < ws.len() && (#[trigger] ws[k]).label@ == s;
        assert(ws[c].label@ == ws[i].label@);
        assert(ls[c] == ls[i]);
    }
}

/// The lookup given the lower-cased forms that std's `str::to_lowercase` gives (see
/// [`find_low`]): `lowered` holds each widget's lower-cased label, `lowered_wanted` the
/// lower-cased trimmed label, `lowered_words` its lower-cased words.
pub fn find_given(
    ws: &[Widget],
    lowered: &[String],
    label: &str,
    nth: usize,
    prefer: Option<&str>,
    lowered_wanted: &str,
    lowered_words: &[String],
) -> (r: Result<usize, String>)
    requires
        lowered_fits(ws@, string_views(lowered@)),
    ensures
        match r {
            Ok(i) => find_low(ws@, label@, nth as nat, match prefer { Some(s) => Some(s@), None => None }, aligned_low(ws@, string_views(lowered@)), lowered_wanted@, string_views(lowered_words@))
                == Ok::<usize, Seq<char>>(i),
            Err(e) => find_low(ws@, label@, nth as nat, match prefer { Some(s) => Some(s@), None => None }, aligned_low(ws@, string_views(lowered@)), lowered_wanted@, string_views(lowered_words@))
                == Err::<usize, Seq<char>>(e@),
        },
        r matches Ok(i) ==> i < ws.len(),
{
    let ghost low = aligned_low(ws@, string_views(lowered@));
    proof {
        lemma_aligned(ws@, string_views(lowered@));
    }
    let lv_ = vecs_of(lowered);
    assert forall|i: int| 0 <= i < ws.len() implies low(#[trigger] ws@[i].label@) == lv_@[i]@ by {
        assert(views(lv_@)[i] == lv_@[i]@);
    }
    let lws = vecs_of(lowered_words);
    let lw = chars_of(lowered_wanted);
    let lv = chars_of(label);
    let h = hits_exec(ws, lv_.as_slice(), lv.as_slice(), prefer, lw.as_slice(), Ghost(low));
    let wanted = trim_vec(lv.as_slice());
    let k: usize = if nth == 0 { 0 } else { nth - 1 };
    if k < h.len() {
        return Ok(h[k]);
    }
    let mut e: Vec<char> = Vec::new();
    if h.len() == 0 {
        let near = near_exec(ws, lv_.as_slice(), lws.as_slice(), Ghost(low));
        push_str(&mut e, "no widget labelled `");
        push_all(&mut e, wanted.as_slice());
        if near.len() == 0 {
            push_str(&mut e, "` (call `observe` for the current labels)");
        } else {
            push_str(&mut e, "`; similar: ");
            let sep = chars_of(", ");
            push_join(&mut e, near.as_slice(), sep.as_slice());
        }
        assert(e@ =~= no_widget(wanted@, near_low(ws@, low, string_views(lowered_words@))));
    } else {
        push_str(&mut e, "only ");
        push_decimal(&mut e, h.len() as u64);
        push_str(&mut e, " widget(s) labelled `");
        push_all(&mut e, wanted.as_slice());
        push_str(&mut e, "`, asked for #");
        push_decimal(&mut e, nth as u64);
        assert(e@ =~= "only "@ + decimal(h@.len()) + " widget(s) labelled `"@ + wanted@
            + "`, asked for #"@ + decimal(nth as nat));
    }
    Err(string_of(e.as_slice()))
}

// ------------------------------------------------------------------------------- congruence

proof fn lemma_keep_congr(ws: Seq<Widget>, from: Seq<usize>, p: spec_fn(Widget) -> bool, q: spec_fn(Widget) -> bool)
    requires
        forall|j: int| 0 <= j < from.len() ==> p(ws[#[trigger] from[j] as int]) == q(ws[from[j] as int]),
    ensures
        keep(ws, from, p) == keep(ws, from, q),
    decreases from.len(),
{
    if from.len() > 0 {
        assert forall|j: int| 0 <= j < from.drop_last().len() implies p(ws[#[trigger] from.drop_last()[j] as int]) == q(ws[from.drop_last()[j] as int]) by {
            assert(from.drop_last()[j] == from[j]);
        }
        lemma_keep_congr(ws, from.drop_last(), p, q);
        assert(p(ws[from[from.len() - 1] as int]) == q(ws[from[from.len() - 1] as int]));
    }
}

proof fn lemma_passes_congr(ws: Seq<Widget>, from: Seq<usize>, t: Test, arg: Seq<char>, low1: spec_fn(Seq<char>) -> Seq<char>, low2: spec_fn(Seq<char>) -> Seq<char>)
    requires
        forall|j: int| 0 <= j < from.len() ==> #[trigger] from[j] < ws.len(),
        forall|i: int| 0 <= i < ws.len() ==> low1(#[trigger] ws[i].label@) == low2(ws[i].label@),
    ensures
        keep(ws, from, passes_low(t, arg, low1)) == keep(ws, from, passes_low(t, arg, low2)),
{
    assert forall|j: int| 0 <= j < from.len() implies (passes_low(t, arg, low1))(ws[#[trigger] from[j] as int]) == (passes_low(t, arg, low2))(ws[from[j] as int]) by {
        let i = from[j] as int;
        assert(low1(ws[i].label@) == low2(ws[i].label@));
    }
    lemma_keep_congr(ws, from, passes_low(t, arg, low1), passes_low(t, arg, low2));
}

proof fn lemma_tiers_congr(ws: Seq<Widget>, pool: Seq<usize>, wanted: Seq<char>, low1: spec_fn(Seq<char>) -> Seq<char>, low2: spec_fn(Seq<char>) -> Seq<char>, lw: Seq<char>)
    requires
        forall|j: int| 0 <= j < pool.len() ==> #[trigger] pool[j] < ws.len(),
        forall|i: int| 0 <= i < ws.len() ==> low1(#[trigger] ws[i].label@) == low2(ws[i].label@),
    ensures
        tiers_low(ws, pool, wanted, low1, lw) == tiers_low(ws, pool, wanted, low2, lw),
{
    lemma_passes_congr(ws, pool, Test::Exact, wanted, low1, low2);
    lemma_passes_congr(ws, pool, Test::NoCase, wanted, low1, low2);
    lemma_passes_congr(ws, pool, Test::Contains, lw, low1, low2);
}

/// The lookup depends on the lower-casing only through the labels of `ws`.
proof fn lemma_find_congr(
    ws: Seq<Widget>,
    label: Seq<char>,
    nth: nat,
    prefer: Option<Seq<char>>,
    low1: spec_fn(Seq<char>) -> Seq<char>,
    low2: spec_fn(Seq<char>) -> Seq<char>,
    lw: Seq<char>,
    lws: Seq<Seq<char>>,
)
    requires
        forall|i: int| 0 <= i < ws.len() ==> low1(#[trigger] ws[i].label@) == low2(ws[i].label@),
    ensures
        find_low(ws, label, nth, prefer, low1, lw, lws) == find_low(ws, label, nth, prefer, low2, lw, lws),
{
    let pool = addressable(ws);
    let all = indices(ws.len());
    assert(forall|j: int| 0 <= j < all.len() ==> #[trigger] all[j] < ws.len());
    lemma_keep_bounded(ws, all, |w: Widget| !is_modal(ws) || w.foreground);
    let wanted = trim(label);
    lemma_tiers_congr(ws, pool, wanted, low1, low2, lw);
    if let Some(r) = prefer {
        lemma_passes_congr(ws, pool, Test::Role, r, low1, low2);
        let same = keep(ws, pool, passes_low(Test::Role, r, low1));
        lemma_keep_bounded(ws, pool, passes_low(Test::Role, r, low1));
        lemma_tiers_congr(ws, same, wanted, low1, low2, lw);
    }
    assert(hits_low(ws, label, prefer, low1, lw) == hits_low(ws, label, prefer, low2, lw));
    assert forall|j: int| 0 <= j < pool.len() implies (mentions_low(lws, low1))(ws[#[trigger] pool[j] as int]) == (mentions_low(lws, low2))(ws[pool[j] as int]) by {
        let i = pool[j] as int;
        assert(low1(ws[i].label@) == low2(ws[i].label@));
    }
    lemma_keep_congr(ws, pool, mentions_low(lws, low1), mentions_low(lws, low2));
    assert(near_low(ws, low1, lws) == near_low(ws, low2, lws));
}

/// `find_spec(ws, label, nth, prefer)`.
pub fn find_in(ws: &[Widget], label: &str, nth: usize, prefer: Option<&str>) -> (r: Result<usize, String>)
    ensures
        match r {
            Ok(i) => find_spec(ws@, label@, nth as nat, match prefer { Some(s) => Some(s@), None => None }) == Ok::<usize, Seq<char>>(i),
            Err(e) => find_spec(ws@, label@, nth as nat, match prefer { Some(s) => Some(s@), None => None }) == Err::<usize, Seq<char>>(e@),
        },
        r matches Ok(i) ==> i < ws.len(),
{
    let mut lowered: Vec<String> = Vec::new();
    let mut i: usize = 0;
    while i < ws.len()
        invariant
            i <= ws.len(),
            lowered.len() == i,
            forall|k: int| 0 <= k < i ==> #[trigger] lowered@[k]@ == to_lowercase(ws@[k].label@),
        decreases ws.len() - i,
    {
        lowered.push(lowercase(ws[i].label.as_str()));
        i = i + 1;
    }
    let lv = chars_of(label);
    let wanted = trim_vec(lv.as_slice());
    let lw = lowercase(string_of(wanted.as_slice()).as_str());
    let ws_ = words_vec(wanted.as_slice());
    let mut lws: Vec<String> = Vec::new();
    let mut j: usize = 0;
    let ghost target = words(wanted@).map_values(|x: Seq<char>| to_lowercase(x));
    while j < ws_.len()
        invariant
            j <= ws_.len(),
            views(ws_@) == words(wanted@),
            target == words(wanted@).map_values(|x: Seq<char>| to_lowercase(x)),
            string_views(lws@) == target.take(j as int),
        decreases ws_.len() - j,
    {
        let ghost before = lws@;
        lws.push(lowercase(string_of(ws_[j].as_slice()).as_str()));
        proof {
            assert(views(ws_@)[j as int] == ws_@[j as int]@);
            assert(string_views(lws@) =~= string_views(before).push(to_lowercase(ws_@[j as int]@)));
            assert(string_views(lws@) =~= target.take(j + 1));
        }
        j = j + 1;
    }
    proof {
        assert(target.take(j as int) =~= target);
        let ls = string_views(lowered@);
        assert forall|a: int, b: int|
            0 <= a < ws.len() && 0 <= b < ws.len() && #[trigger] ws@[a].label@ == #[trigger] ws@[b].label@
            implies ls[a] == ls[b] by {
            assert(ls[a] == lowered@[a]@);
            assert(ls[b] == lowered@[b]@);
        }
        lemma_aligned(ws@, ls);
        assert forall|k: int| 0 <= k < ws.len() implies (aligned_low(ws@, ls))(#[trigger] ws@[k].label@) == (std_lower())(ws@[k].label@) by {
            assert(ls[k] == lowered@[k]@);
        }
        lemma_find_congr(
            ws@,
            label@,
            nth as nat,
            match prefer { Some(s) => Some(s@), None => None },
            aligned_low(ws@, ls),
            std_lower(),
            lw@,
            target,
        );
    }
    find_given(ws, lowered.as_slice(), label, nth, prefer, lw.as_str(), lws.as_slice())
}

} // verus!
