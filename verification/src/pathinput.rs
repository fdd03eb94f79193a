//! Typed paths: `~` / relative expansion and Tab completion for path input fields (the file
//! manager's "go to path" dialog, the player's "open" dialog). Paths are Unix paths held as
//! text; the caller reads the environment and the directory listing.

use vstd::prelude::*;

use crate::text::{
    chars_of, concat, is_prefix, lex_le, lex_le_exec, lowercase, push_all, slice_vec, starts_with,
    string_of, to_lowercase,
};

verus! {

// ------------------------------------------------------------------------------- common prefix

/// Length of the longest common prefix of `a` and `b`.
pub open spec fn lcp(a: Seq<char>, b: Seq<char>) -> nat
    decreases a.len(),
{
    if a.len() == 0 || b.len() == 0 || a[0] != b[0] {
        0
    } else {
        1 + lcp(a.drop_first(), b.drop_first())
    }
}

/// Length of the prefix of `first` shared by every sequence of `rest`.
pub open spec fn shared_len(first: Seq<char>, rest: Seq<Seq<char>>) -> nat
    decreases rest.len(),
{
    if rest.len() == 0 {
        first.len()
    } else {
        let n = shared_len(first, rest.drop_last());
        let m = lcp(first, rest.last());
        if m < n {
            m
        } else {
            n
        }
    }
}

/// Longest common prefix of the candidates (empty for no candidates).
pub open spec fn common_prefix_spec(items: Seq<Seq<char>>) -> Seq<char> {
    if items.len() == 0 {
        seq![]
    } else {
        items[0].take(shared_len(items[0], items.skip(1)) as int)
    }
}

/// `p` is a prefix of every sequence of `items`.
pub open spec fn is_common_prefix(p: Seq<char>, items: Seq<Seq<char>>) -> bool {
    forall|i: int| 0 <= i < items.len() ==> is_prefix(p, #[trigger] items[i])
}

proof fn lemma_lcp(a: Seq<char>, b: Seq<char>, i: int)
    requires
        0 <= i <= a.len(),
        i <= b.len(),
        forall|j: int| 0 <= j < i ==> #[trigger] a[j] == b[j],
        i == a.len() || i == b.len() || a[i] != b[i],
    ensures
        lcp(a, b) == i,
    decreases a.len(),
{
    if i > 0 {
        assert forall|j: int| 0 <= j < i - 1 implies #[trigger] a.drop_first()[j]
            == b.drop_first()[j] by {
            assert(a[j + 1] == b[j + 1]);
        }
        lemma_lcp(a.drop_first(), b.drop_first(), i - 1);
    }
}

proof fn lemma_lcp_props(a: Seq<char>, b: Seq<char>)
    ensures
        lcp(a, b) <= a.len(),
        lcp(a, b) <= b.len(),
        forall|j: int| 0 <= j < lcp(a, b) ==> #[trigger] a[j] == b[j],
        lcp(a, b) == a.len() || lcp(a, b) == b.len() || a[lcp(a, b) as int] != b[lcp(
            a,
            b,
        ) as int],
    decreases a.len(),
{
    if !(a.len() == 0 || b.len() == 0 || a[0] != b[0]) {
        lemma_lcp_props(a.drop_first(), b.drop_first());
        let n = lcp(a, b);
        assert forall|j: int| 0 <= j < n implies #[trigger] a[j] == b[j] by {
            if j > 0 {
                assert(a.drop_first()[j - 1] == b.drop_first()[j - 1]);
            }
        }
        if n < a.len() && n < b.len() {
            assert(a.drop_first()[n - 1] != b.drop_first()[n - 1]);
        }
    }
}

fn lcp_exec(a: &[char], b: &[char]) -> (r: usize)
    ensures
        r == lcp(a@, b@),
{
    let mut i: usize = 0;
    while i < a.len() && i < b.len() && a[i] == b[i]
        invariant
            i <= a.len(),
            i <= b.len(),
            forall|j: int| 0 <= j < i ==> #[trigger] a@[j] == b@[j],
        decreases a.len() - i,
    {
        i = i + 1;
    }
    proof {
        lemma_lcp(a@, b@, i as int);
    }
    i
}

proof fn lemma_shared_len_le(first: Seq<char>, rest: Seq<Seq<char>>)
    ensures
        shared_len(first, rest) <= first.len(),
    decreases rest.len(),
{
    if rest.len() > 0 {
        lemma_shared_len_le(first, rest.drop_last());
    }
}

/// Longest common prefix of the candidates (what Tab fills in when several match).
pub fn common_prefix(items: &[String]) -> (r: String)
    ensures
        r@ == common_prefix_spec(items@.map_values(|s: String| s@)),
{
    let ghost views = items@.map_values(|s: String| s@);
    if items.len() == 0 {
        return string_of(&[]);
    }
    let first = chars_of(items[0].as_str());
    let mut end: usize = first.len();
    let mut i: usize = 1;
    assert(views.skip(1).take(0) =~= Seq::<Seq<char>>::empty());
    while i < items.len()
        invariant
            1 <= i <= items.len(),
            views == items@.map_values(|s: String| s@),
            first@ == views[0],
            end == shared_len(first@, views.skip(1).take(i - 1)),
        decreases items.len() - i,
    {
        let other = chars_of(items[i].as_str());
        let m = lcp_exec(first.as_slice(), other.as_slice());
        proof {
            assert(views.skip(1).take(i as int).drop_last() =~= views.skip(1).take(i - 1));
            assert(views.skip(1).take(i as int).last() == views[i as int]);
        }
        if m < end {
            end = m;
        }
        i = i + 1;
    }
    proof {
        assert(views.skip(1).take(i - 1) =~= views.skip(1));
        lemma_shared_len_le(first@, views.skip(1));
    }
    let out = slice_vec(first.as_slice(), 0, end);
    assert(out@ =~= common_prefix_spec(views));
    string_of(out.as_slice())
}

proof fn lemma_shared_len_props(first: Seq<char>, rest: Seq<Seq<char>>)
    ensures
        shared_len(first, rest) <= first.len(),
        forall|i: int|
            0 <= i < rest.len() ==> is_prefix(
                first.take(shared_len(first, rest) as int),
                #[trigger] rest[i],
            ),
        forall|p: Seq<char>|
            #[trigger] is_prefix(p, first) && is_common_prefix(p, rest) ==> p.len() <= shared_len(
                first,
                rest,
            ),
    decreases rest.len(),
{
    lemma_shared_len_le(first, rest);
    if rest.len() > 0 {
        let init = rest.drop_last();
        let last = rest.last();
        lemma_shared_len_props(first, init);
        lemma_lcp_props(first, last);
        let n = shared_len(first, rest);
        assert forall|i: int| 0 <= i < rest.len() implies is_prefix(
            first.take(n as int),
            #[trigger] rest[i],
        ) by {
            if i < rest.len() - 1 {
                assert(init[i] == rest[i]);
                let k = shared_len(first, init);
                assert(rest[i].take(k as int) == first.take(k as int));
                assert(rest[i].take(n as int) =~= first.take(n as int)) by {
                    assert forall|j: int| 0 <= j < n implies rest[i][j] == first[j] by {
                        assert(rest[i].take(k as int)[j] == first.take(k as int)[j]);
                    }
                }
            } else {
                assert(rest[i] == last);
                assert(last.take(n as int) =~= first.take(n as int));
            }
        }
        assert forall|p: Seq<char>| #[trigger]
            is_prefix(p, first) && is_common_prefix(p, rest) implies p.len() <= n by {
            assert forall|i: int| 0 <= i < init.len() implies is_prefix(p, #[trigger] init[i]) by {
                assert(init[i] == rest[i]);
            }
            assert(is_prefix(p, rest[rest.len() - 1]));
            let m = lcp(first, last);
            if p.len() > m {
                assert(m < first.len() && m < last.len());
                assert(first.take(p.len() as int)[m as int] == p[m as int]);
                assert(last.take(p.len() as int)[m as int] == p[m as int]);
            }
        }
    }
}

/// The common prefix is a prefix of every candidate, and no longer prefix is shared by all of
/// them.
pub proof fn law_common_prefix_is_longest(items: Seq<Seq<char>>)
    ensures
        is_common_prefix(common_prefix_spec(items), items),
        forall|p: Seq<char>|
            items.len() > 0 && #[trigger] is_common_prefix(p, items) ==> p.len()
                <= common_prefix_spec(items).len(),
{
    if items.len() > 0 {
        let first = items[0];
        let rest = items.skip(1);
        lemma_shared_len_props(first, rest);
        let n = shared_len(first, rest);
        assert forall|i: int| 0 <= i < items.len() implies is_prefix(
            common_prefix_spec(items),
            #[trigger] items[i],
        ) by {
            if i > 0 {
                assert(rest[i - 1] == items[i]);
            } else {
                assert(first.take(n as int).len() == n);
            }
        }
        assert forall|p: Seq<char>|
            items.len() > 0 && #[trigger] is_common_prefix(p, items) implies p.len()
                <= common_prefix_spec(items).len() by {
            assert(is_prefix(p, items[0]));
            assert forall|i: int| 0 <= i < rest.len() implies is_prefix(p, #[trigger] rest[i]) by {
                assert(rest[i] == items[i + 1]);
            }
        }
    }
}

// ------------------------------------------------------------------------------- expansion

/// `PathBuf::join` on Unix paths held as text: an absolute `rest` replaces `base`; otherwise
/// `rest` is appended, with a `/` in between unless `base` is empty or already ends with one.
pub open spec fn join_path(base: Seq<char>, rest: Seq<char>) -> Seq<char> {
    if rest.len() > 0 && rest[0] == '/' {
        rest
    } else if base.len() == 0 || base.last() == '/' {
        base + rest
    } else {
        base + seq!['/'] + rest
    }
}

/// The path `input` stands for before normalisation: `~` is `home` (or `/` when unknown),
/// `~/rest` is `rest` joined to it, an absolute input is itself, anything else is joined to
/// `cwd`.
pub open spec fn raw_path(input: Seq<char>, cwd: Seq<char>, home: Option<Seq<char>>) -> Seq<char> {
    let h = match home {
        Some(h) => h,
        None => seq!['/'],
    };
    if input == seq!['~'] {
        h
    } else if input.len() >= 2 && input[0] == '~' && input[1] == '/' {
        join_path(h, input.skip(2))
    } else if input.len() > 0 && input[0] == '/' {
        input
    } else {
        join_path(cwd, input)
    }
}

/// `s` cut at every `/` (empty pieces included).
pub open spec fn split_slash(s: Seq<char>) -> Seq<Seq<char>>
    decreases s.len(),
{
    if s.len() == 0 {
        seq![seq![]]
    } else {
        let r = split_slash(s.drop_last());
        if s.last() == '/' {
            r.push(seq![])
        } else {
            r.update(r.len() - 1, r.last().push(s.last()))
        }
    }
}

/// One component applied to the stack of kept names: empty and `.` vanish, `..` drops the
/// last kept name (none at the root), anything else is kept.
pub open spec fn step(stack: Seq<Seq<char>>, seg: Seq<char>) -> Seq<Seq<char>> {
    if seg == Seq::<char>::empty() || seg == seq!['.'] {
        stack
    } else if seg == seq!['.', '.'] {
        if stack.len() > 0 {
            stack.drop_last()
        } else {
            stack
        }
    } else {
        stack.push(seg)
    }
}

/// The names kept after applying every component in order.
pub open spec fn normalize(segs: Seq<Seq<char>>) -> Seq<Seq<char>>
    decreases segs.len(),
{
    if segs.len() == 0 {
        seq![]
    } else {
        step(normalize(segs.drop_last()), segs.last())
    }
}

/// `names` joined by `/`.
pub open spec fn join_names(names: Seq<Seq<char>>) -> Seq<char>
    decreases names.len(),
{
    if names.len() == 0 {
        seq![]
    } else if names.len() == 1 {
        names[0]
    } else {
        join_names(names.drop_last()) + seq!['/'] + names.last()
    }
}

/// Lexical normal form of a path: `.` and empty components dropped, `..` resolved against the
/// previous name (never above the root), `/` for an empty result.
pub open spec fn lexical(raw: Seq<char>) -> Seq<char> {
    let names = normalize(split_slash(raw));
    let joined = if raw.len() > 0 && raw[0] == '/' {
        seq!['/'] + join_names(names)
    } else {
        join_names(names)
    };
    if joined.len() == 0 {
        seq!['/']
    } else {
        joined
    }
}

/// What [`expand`] returns.
pub open spec fn expand_spec(input: Seq<char>, cwd: Seq<char>, home: Option<Seq<char>>) -> Seq<char> {
    lexical(raw_path(input, cwd, home))
}

pub fn join_path_exec(base: &[char], rest: &[char]) -> (r: Vec<char>)
    ensures
        r@ == join_path(base@, rest@),
{
    if rest.len() > 0 && rest[0] == '/' {
        slice_vec(rest, 0, rest.len())
    } else if base.len() == 0 || base[base.len() - 1] == '/' {
        concat(base, rest)
    } else {
        let mut r = slice_vec(base, 0, base.len());
        r.push('/');
        push_all(&mut r, rest);
        r
    }
}

fn raw_path_exec(input: &[char], cwd: &[char], home: Option<&str>) -> (r: Vec<char>)
    ensures
        r@ == raw_path(input@, cwd@, match home {
            Some(h) => Some(h@),
            None => None,
        }),
{
    let h: Vec<char> = match home {
        Some(h) => chars_of(h),
        None => {
            let mut v: Vec<char> = Vec::new();
            v.push('/');
            v
        },
    };
    proof {
        assert(input@ == seq!['~'] <==> (input@.len() == 1 && input@[0] == '~')) by {
            if input@.len() == 1 && input@[0] == '~' {
                assert(input@ =~= seq!['~']);
            }
        }
    }
    if input.len() == 1 && input[0] == '~' {
        h
    } else if input.len() >= 2 && input[0] == '~' && input[1] == '/' {
        let rest = slice_vec(input, 2, input.len());
        assert(rest@ =~= input@.skip(2));
        join_path_exec(h.as_slice(), rest.as_slice())
    } else if input.len() > 0 && input[0] == '/' {
        slice_vec(input, 0, input.len())
    } else {
        join_path_exec(cwd, input)
    }
}

/// View of a vector of vectors.
pub open spec fn views(v: Seq<Vec<char>>) -> Seq<Seq<char>> {
    v.map_values(|x: Vec<char>| x@)
}

fn step_exec(stack: &mut Vec<Vec<char>>, seg: Vec<char>)
    ensures
        views(final(stack)@) == step(views(old(stack)@), seg@),
{
    let n = seg.len();
    proof {
        assert(seg@ == Seq::<char>::empty() <==> n == 0) by {
            if n == 0 {
                assert(seg@ =~= Seq::<char>::empty());
            }
        }
        assert(seg@ == seq!['.'] <==> (n == 1 && seg@[0] == '.')) by {
            if n == 1 && seg@[0] == '.' {
                assert(seg@ =~= seq!['.']);
            }
        }
        assert(seg@ == seq!['.', '.'] <==> (n == 2 && seg@[0] == '.' && seg@[1] == '.')) by {
            if n == 2 && seg@[0] == '.' && seg@[1] == '.' {
                assert(seg@ =~= seq!['.', '.']);
            }
        }
    }
    if n == 0 || (n == 1 && seg[0] == '.') {
    } else if n == 2 && seg[0] == '.' && seg[1] == '.' {
        if stack.len() > 0 {
            stack.pop();
            assert(views(stack@) =~= views(old(stack)@).drop_last());
        }
    } else {
        stack.push(seg);
        assert(views(stack@) =~= views(old(stack)@).push(seg@));
    }
}

fn normalize_exec(raw: &[char]) -> (r: Vec<Vec<char>>)
    ensures
        views(r@) == normalize(split_slash(raw@)),
{
    // Components are cut at each `/` and applied as soon as they are complete.
    let mut stack: Vec<Vec<char>> = Vec::new();
    let mut cur: Vec<char> = Vec::new();
    let mut i: usize = 0;
    proof {
        assert(raw@.take(0) =~= Seq::<char>::empty());
        assert(views(stack@) =~= normalize(split_slash(raw@.take(0)).drop_last()));
    }
    while i < raw.len()
        invariant
            i <= raw.len(),
            split_slash(raw@.take(i as int)).len() > 0,
            split_slash(raw@.take(i as int)).last() == cur@,
            views(stack@) == normalize(split_slash(raw@.take(i as int)).drop_last()),
        decreases raw.len() - i,
    {
        let ghost prev = split_slash(raw@.take(i as int));
        proof {
            assert(raw@.take(i + 1).drop_last() =~= raw@.take(i as int));
            assert(raw@.take(i + 1).last() == raw@[i as int]);
        }
        if raw[i] == '/' {
            let done = cur;
            cur = Vec::new();
            step_exec(&mut stack, done);
            proof {
                let next = split_slash(raw@.take(i + 1));
                assert(next == prev.push(seq![]));
                assert(next.drop_last() =~= prev);
                assert(prev =~= prev.drop_last().push(prev.last()));
                assert(cur@ =~= Seq::<char>::empty());
            }
        } else {
            cur.push(raw[i]);
            proof {
                let next = split_slash(raw@.take(i + 1));
                assert(next == prev.update(prev.len() - 1, prev.last().push(raw@[i as int])));
                assert(next.drop_last() =~= prev.drop_last());
            }
        }
        i = i + 1;
    }
    let ghost segs = split_slash(raw@.take(i as int));
    step_exec(&mut stack, cur);
    proof {
        assert(raw@.take(i as int) =~= raw@);
        assert(segs =~= segs.drop_last().push(segs.last()));
    }
    stack
}

fn join_names_exec(names: &Vec<Vec<char>>, out: &mut Vec<char>)
    ensures
        final(out)@ == old(out)@ + join_names(views(names@)),
{
    let mut k: usize = 0;
    while k < names.len()
        invariant
            k <= names.len(),
            out@ == old(out)@ + join_names(views(names@).take(k as int)),
        decreases names.len() - k,
    {
        proof {
            assert(views(names@).take(k + 1).drop_last() =~= views(names@).take(k as int));
            assert(views(names@).take(k + 1).last() == names@[k as int]@);
        }
        if k > 0 {
            out.push('/');
        } else {
            assert(views(names@).take(1) =~= seq![names@[0]@]);
        }
        push_all(out, names[k].as_slice());
        k = k + 1;
        proof {
            assert(out@ =~= old(out)@ + join_names(views(names@).take(k as int)));
        }
    }
    assert(views(names@).take(names.len() as int) =~= views(names@));
}

/// Expand `~` (to `home`, or `/` when it is unknown) and make `input` absolute against
/// `cwd`, then drop `.` / `..` lexically (no symlink resolution — the path is shown as typed).
pub fn expand(input: &str, cwd: &str, home: Option<&str>) -> (r: String)
    ensures
        r@ == expand_spec(input@, cwd@, match home {
            Some(h) => Some(h@),
            None => None,
        }),
{
    let inp = chars_of(input);
    let c = chars_of(cwd);
    let raw = raw_path_exec(inp.as_slice(), c.as_slice(), home);
    let names = normalize_exec(raw.as_slice());
    let mut out: Vec<char> = Vec::new();
    if raw.len() > 0 && raw[0] == '/' {
        out.push('/');
    }
    join_names_exec(&names, &mut out);
    if out.len() == 0 {
        out.push('/');
    }
    assert(out@ =~= lexical(raw@));
    string_of(out.as_slice())
}

// ------------------------------------------------------------------------------- completion

/// Index of the last `/` of `s`, if any.
pub open spec fn last_slash(s: Seq<char>) -> Option<int>
    decreases s.len(),
{
    if s.len() == 0 {
        None
    } else if s.last() == '/' {
        Some(s.len() - 1)
    } else {
        last_slash(s.drop_last())
    }
}

/// `input` cut after its last `/`: the typed directory part (with the slash) and the partial
/// name after it. Without a slash the directory part is empty.
pub open spec fn split_input(input: Seq<char>) -> (Seq<char>, Seq<char>) {
    match last_slash(input) {
        Some(i) => (input.take(i + 1), input.skip(i + 1)),
        None => (seq![], input),
    }
}

/// The directory whose entries complete `input`: `cwd` for a bare name, else the expanded
/// directory part; `None` (nothing to complete) for an empty input or a bare `~`.
pub open spec fn complete_dir_spec(input: Seq<char>, cwd: Seq<char>, home: Option<Seq<char>>) -> Option<Seq<char>> {
    let (head, part) = split_input(input);
    if head.len() == 0 && (part == seq!['~'] || part.len() == 0) {
        None
    } else if head.len() == 0 {
        Some(cwd)
    } else {
        Some(expand_spec(head, cwd, home))
    }
}

proof fn lemma_last_slash(s: Seq<char>, i: int)
    requires
        -1 <= i < s.len(),
        forall|j: int| i < j < s.len() ==> s[j] != '/',
        i >= 0 ==> s[i] == '/',
    ensures
        last_slash(s) == (if i >= 0 {
            Some(i)
        } else {
            None::<int>
        }),
    decreases s.len(),
{
    if s.len() > 0 && i < s.len() - 1 {
        lemma_last_slash(s.drop_last(), i);
    }
}

fn split_input_exec(input: &[char]) -> (r: (Vec<char>, Vec<char>))
    ensures
        (r.0@, r.1@) == split_input(input@),
{
    let mut k: usize = input.len();
    while k > 0 && input[k - 1] != '/'
        invariant
            k <= input.len(),
            forall|j: int| k <= j < input.len() ==> input@[j] != '/',
        decreases k,
    {
        k = k - 1;
    }
    proof {
        lemma_last_slash(input@, k - 1);
    }
    (slice_vec(input, 0, k), slice_vec(input, k, input.len()))
}

/// The directory to list for completing `input` (see [`complete_dir_spec`]); `None` when there
/// is nothing to complete.
pub fn complete_dir(input: &str, cwd: &str, home: Option<&str>) -> (r: Option<String>)
    ensures
        match (r, complete_dir_spec(input@, cwd@, match home {
            Some(h) => Some(h@),
            None => None,
        })) {
            (Some(a), Some(b)) => a@ == b,
            (None, None) => true,
            _ => false,
        },
{
    let inp = chars_of(input);
    let (head, part) = split_input_exec(inp.as_slice());
    proof {
        assert(part@ == seq!['~'] <==> (part@.len() == 1 && part@[0] == '~')) by {
            if part@.len() == 1 && part@[0] == '~' {
                assert(part@ =~= seq!['~']);
            }
        }
    }
    if head.len() == 0 && ((part.len() == 1 && part[0] == '~') || part.len() == 0) {
        None
    } else if head.len() == 0 {
        Some(string_of(chars_of(cwd).as_slice()))
    } else {
        let h = string_of(head.as_slice());
        Some(expand(h.as_str(), cwd, home))
    }
}

/// A directory entry offered for completion: is it a directory, and its name.
pub type EntrySpec = (bool, Seq<char>);

/// Entries kept for the partial name `part`: directories, and files too when `files`; whose
/// lower-cased name starts with the lower-cased `part`; hidden (`.`) names only when `part`
/// itself starts with `.`.
pub open spec fn keep(e: EntrySpec, part: Seq<char>, files: bool) -> bool {
    &&& (e.0 || files)
    &&& is_prefix(to_lowercase(part), to_lowercase(e.1))
    &&& !(e.1.len() > 0 && e.1[0] == '.') || (part.len() > 0 && part[0] == '.')
}

/// The kept entries, in their original order.
pub open spec fn kept(es: Seq<EntrySpec>, part: Seq<char>, files: bool) -> Seq<EntrySpec>
    decreases es.len(),
{
    if es.len() == 0 {
        seq![]
    } else if keep(es.last(), part, files) {
        kept(es.drop_last(), part, files).push(es.last())
    } else {
        kept(es.drop_last(), part, files)
    }
}

/// Listing order: directories before files, then by lower-cased name.
pub open spec fn before_eq(a: EntrySpec, b: EntrySpec) -> bool {
    (a.0 && !b.0) || (a.0 == b.0 && lex_le(to_lowercase(a.1), to_lowercase(b.1)))
}

/// Stable insertion of `x` into `t`: after every element that does not come after it.
pub open spec fn insert_sorted(t: Seq<EntrySpec>, x: EntrySpec) -> Seq<EntrySpec>
    decreases t.len(),
{
    if t.len() == 0 {
        seq![x]
    } else if before_eq(t.last(), x) {
        t.push(x)
    } else {
        insert_sorted(t.drop_last(), x).push(t.last())
    }
}

/// Stable sort in listing order (what `sort_by` with that comparator produces).
pub open spec fn sorted(es: Seq<EntrySpec>) -> Seq<EntrySpec>
    decreases es.len(),
{
    if es.len() == 0 {
        seq![]
    } else {
        insert_sorted(sorted(es.drop_last()), es.last())
    }
}

/// One completion: the typed directory part, the name, and `/` after a directory.
pub open spec fn completion(head: Seq<char>, e: EntrySpec) -> Seq<char> {
    if e.0 {
        head + e.1 + seq!['/']
    } else {
        head + e.1
    }
}

/// What [`complete_entries`] returns for `input` and the entries of its directory.
pub open spec fn complete_spec(input: Seq<char>, entries: Seq<EntrySpec>, files: bool, max: nat) -> Seq<Seq<char>> {
    let (head, part) = split_input(input);
    let s = sorted(kept(entries, part, files));
    let n = if max < s.len() {
        max
    } else {
        s.len()
    };
    s.take(n as int).map_values(|e: EntrySpec| completion(head, e))
}

/// An entry with its lower-cased name, as carried while sorting.
struct Ranked {
    is_dir: bool,
    name: Vec<char>,
    lower: Vec<char>,
}

spec fn ranked_view(r: Ranked) -> EntrySpec {
    (r.is_dir, r.name@)
}

spec fn ranked_views(v: Seq<Ranked>) -> Seq<EntrySpec> {
    v.map_values(|r: Ranked| ranked_view(r))
}

spec fn ranked_ok(v: Seq<Ranked>) -> bool {
    forall|i: int| 0 <= i < v.len() ==> #[trigger] v[i].lower@ == to_lowercase(v[i].name@)
}

fn before_eq_exec(a: &Ranked, b: &Ranked) -> (r: bool)
    requires
        a.lower@ == to_lowercase(a.name@),
        b.lower@ == to_lowercase(b.name@),
    ensures
        r == before_eq(ranked_view(*a), ranked_view(*b)),
{
    (a.is_dir && !b.is_dir) || (a.is_dir == b.is_dir && lex_le_exec(
        a.lower.as_slice(),
        b.lower.as_slice(),
    ))
}

proof fn lemma_insert_at(t: Seq<EntrySpec>, x: EntrySpec, j: int)
    requires
        0 <= j <= t.len(),
        j == 0 || before_eq(t[j - 1], x),
        forall|k: int| j <= k < t.len() ==> !before_eq(#[trigger] t[k], x),
    ensures
        insert_sorted(t, x) == t.take(j) + seq![x] + t.skip(j),
    decreases t.len(),
{
    if t.len() == 0 {
        assert(t.take(j) + seq![x] + t.skip(j) =~= seq![x]);
    } else if j == t.len() {
        assert(t.take(j) + seq![x] + t.skip(j) =~= t.push(x));
    } else {
        assert(!before_eq(t.last(), x));
        let u = t.drop_last();
        assert forall|k: int| j <= k < u.len() implies !before_eq(#[trigger] u[k], x) by {
            assert(u[k] == t[k]);
        }
        lemma_insert_at(u, x, j);
        assert(u.take(j) + seq![x] + u.skip(j) + seq![t.last()] =~= t.take(j) + seq![x] + t.skip(j));
    }
}

/// Completions for a partially typed path, given the entries of the directory that
/// [`complete_dir`] named (`(is_dir, name)` in listing order): entries whose name starts with
/// the partial name (case-insensitive), each returned as the full input to substitute (the
/// typed prefix style — `~/`, relative — is kept). Directories get a trailing `/`; files are
/// included only when `files` is set. Hidden entries only appear once the partial name starts
/// with `.`. Sorted (directories first when files are included), at most `max`.
pub fn complete_entries(input: &str, entries: Vec<(bool, String)>, files: bool, max: usize) -> (r: Vec<String>)
    ensures
        r@.map_values(|s: String| s@) == complete_spec(
            input@,
            entries@.map_values(|e: (bool, String)| (e.0, e.1@)),
            files,
            max as nat,
        ),
{
    let ghost es = entries@.map_values(|e: (bool, String)| (e.0, e.1@));
    let inp = chars_of(input);
    let (head, part) = split_input_exec(inp.as_slice());
    let ps = string_of(part.as_slice());
    let want_s = lowercase(ps.as_str());
    let want = chars_of(want_s.as_str());
    let part_hidden = part.len() > 0 && part[0] == '.';
    let mut out: Vec<Ranked> = Vec::new();
    let mut i: usize = 0;
    while i < entries.len()
        invariant
            i <= entries.len(),
            es == entries@.map_values(|e: (bool, String)| (e.0, e.1@)),
            want@ == to_lowercase(part@),
            part_hidden == (part@.len() > 0 && part@[0] == '.'),
            ranked_ok(out@),
            ranked_views(out@) == sorted(kept(es.take(i as int), part@, files)),
        decreases entries.len() - i,
    {
        let is_dir = entries[i].0;
        let name = chars_of(entries[i].1.as_str());
        let lower_s = lowercase(entries[i].1.as_str());
        let lower = chars_of(lower_s.as_str());
        let hidden = name.len() > 0 && name[0] == '.';
        let ghost e = es[i as int];
        proof {
            assert(e == (is_dir, name@));
            assert(es.take(i + 1).drop_last() =~= es.take(i as int));
            assert(es.take(i + 1).last() == e);
        }
        let take = (is_dir || files) && starts_with(lower.as_slice(), want.as_slice()) && (!hidden
            || part_hidden);
        proof {
            assert(take == keep(e, part@, files));
        }
        if take {
            let x = Ranked { is_dir, name, lower };
            let mut j: usize = out.len();
            while j > 0 && !before_eq_exec(&out[j - 1], &x)
                invariant
                    j <= out.len(),
                    ranked_ok(out@),
                    x.lower@ == to_lowercase(x.name@),
                    forall|k: int|
                        j <= k < out@.len() ==> !before_eq(
                            #[trigger] ranked_views(out@)[k],
                            ranked_view(x),
                        ),
                decreases j,
            {
                j = j - 1;
            }
            let ghost t = ranked_views(out@);
            let ghost prev = out@;
            proof {
                lemma_insert_at(t, ranked_view(x), j as int);
            }
            out.insert(j, x);
            proof {
                assert(ranked_views(out@) =~= t.take(j as int) + seq![(is_dir, name@)] + t.skip(j as int));
                let kp = kept(es.take(i as int), part@, files);
                assert(kept(es.take(i + 1), part@, files) == kp.push(e));
                assert(kp.push(e).drop_last() =~= kp);
                assert(sorted(kp.push(e)) == insert_sorted(sorted(kp), e));
                assert(ranked_view(x) == e);
                assert forall|k: int| 0 <= k < out@.len() implies #[trigger] out@[k].lower@
                    == to_lowercase(out@[k].name@) by {
                    if k < j {
                        assert(out@[k] == prev[k]);
                    } else if k > j {
                        assert(out@[k] == prev[k - 1]);
                    }
                }
            }
        }
        else {
            assert(kept(es.take(i + 1), part@, files) == kept(es.take(i as int), part@, files));
        }
        i = i + 1;
    }
    proof {
        assert(es.take(entries.len() as int) =~= es);
    }
    let ghost s = ranked_views(out@);
    let n = if max < out.len() {
        max
    } else {
        out.len()
    };
    let mut r: Vec<String> = Vec::new();
    let mut k: usize = 0;
    while k < n
        invariant
            k <= n <= out.len(),
            s == ranked_views(out@),
            r@.map_values(|x: String| x@) == s.take(k as int).map_values(
                |e: EntrySpec| completion(head@, e),
            ),
        decreases n - k,
    {
        let mut c = slice_vec(head.as_slice(), 0, head.len());
        push_all(&mut c, out[k].name.as_slice());
        if out[k].is_dir {
            c.push('/');
        }
        proof {
            assert(s[k as int] == (out@[k as int].is_dir, out@[k as int].name@));
            assert(c@ =~= completion(head@, s[k as int]));
        }
        let ghost rprev = r@;
        let cs = string_of(c.as_slice());
        r.push(cs);
        proof {
            assert(r@.map_values(|x: String| x@) =~= rprev.map_values(|x: String| x@).push(cs@));
            assert(s.take(k + 1).map_values(|e: EntrySpec| completion(head@, e)) =~= s.take(
                k as int,
            ).map_values(|e: EntrySpec| completion(head@, e)).push(completion(head@, s[k as int])));
        }
        k = k + 1;
    }
    r
}


proof fn lemma_insert_sorted_members(t: Seq<EntrySpec>, x: EntrySpec)
    ensures
        insert_sorted(t, x).len() == t.len() + 1,
        forall|j: int| 0 <= j < insert_sorted(t, x).len() ==> (#[trigger] insert_sorted(t, x)[j] == x || t.contains(insert_sorted(t, x)[j])),
    decreases t.len(),
{
    if t.len() > 0 && !before_eq(t.last(), x) {
        lemma_insert_sorted_members(t.drop_last(), x);
        let r = insert_sorted(t.drop_last(), x);
        assert forall|j: int| 0 <= j < insert_sorted(t, x).len() implies (#[trigger] insert_sorted(t, x)[j] == x || t.contains(insert_sorted(t, x)[j])) by {
            if j < r.len() {
                if r[j] != x {
                    let k = choose|k: int| 0 <= k < t.drop_last().len() && t.drop_last()[k] == r[j];
                    assert(t[k] == r[j]);
                }
            } else {
                assert(insert_sorted(t, x)[j] == t.last());
                assert(t[t.len() - 1] == t.last());
            }
        }
    } else if t.len() > 0 {
        assert forall|j: int| 0 <= j < insert_sorted(t, x).len() implies (#[trigger] insert_sorted(t, x)[j] == x || t.contains(insert_sorted(t, x)[j])) by {
            if j < t.len() {
                assert(insert_sorted(t, x)[j] == t[j]);
            }
        }
    }
}

proof fn lemma_sorted_members(es: Seq<EntrySpec>)
    ensures
        sorted(es).len() == es.len(),
        forall|j: int| 0 <= j < sorted(es).len() ==> es.contains(#[trigger] sorted(es)[j]),
    decreases es.len(),
{
    if es.len() > 0 {
        lemma_sorted_members(es.drop_last());
        let t = sorted(es.drop_last());
        lemma_insert_sorted_members(t, es.last());
        assert forall|j: int| 0 <= j < sorted(es).len() implies es.contains(#[trigger] sorted(es)[j]) by {
            let y = sorted(es)[j];
            if y == es.last() {
                assert(es[es.len() - 1] == y);
            } else {
                assert(t.contains(y));
                let k = choose|k: int| 0 <= k < t.len() && t[k] == y;
                assert(es.drop_last().contains(y));
                let q = choose|q: int| 0 <= q < es.drop_last().len() && es.drop_last()[q] == y;
                assert(es[q] == y);
            }
        }
    }
}

proof fn lemma_kept_members(es: Seq<EntrySpec>, part: Seq<char>, files: bool)
    ensures
        forall|j: int| 0 <= j < kept(es, part, files).len() ==> keep(#[trigger] kept(es, part, files)[j], part, files),
    decreases es.len(),
{
    if es.len() > 0 {
        lemma_kept_members(es.drop_last(), part, files);
        let r = kept(es.drop_last(), part, files);
        if keep(es.last(), part, files) {
            assert forall|j: int| 0 <= j < kept(es, part, files).len() implies keep(#[trigger] kept(es, part, files)[j], part, files) by {
                if j < r.len() {
                    assert(kept(es, part, files)[j] == r[j]);
                }
            }
        }
    }
}

/// Completions never number more than `max`; each is the typed directory part followed by an
/// entry name; without `files` each one is a directory, ending in `/`.
pub proof fn law_completion_shape(input: Seq<char>, entries: Seq<EntrySpec>, files: bool, max: nat)
    ensures
        complete_spec(input, entries, files, max).len() <= max,
        forall|j: int| 0 <= j < complete_spec(input, entries, files, max).len() ==>
            is_prefix(split_input(input).0, #[trigger] complete_spec(input, entries, files, max)[j]),
        !files ==> forall|j: int| 0 <= j < complete_spec(input, entries, files, max).len() ==>
            (#[trigger] complete_spec(input, entries, files, max)[j]).last() == '/',
{
    let (head, part) = split_input(input);
    let k = kept(entries, part, files);
    let s = sorted(k);
    lemma_sorted_members(k);
    lemma_kept_members(entries, part, files);
    let r = complete_spec(input, entries, files, max);
    assert forall|j: int| 0 <= j < r.len() implies is_prefix(head, #[trigger] r[j]) by {
        let e = s[j];
        assert(r[j] == completion(head, e));
        if e.0 {
            assert((head + e.1 + seq!['/']).take(head.len() as int) =~= head);
        } else {
            assert((head + e.1).take(head.len() as int) =~= head);
        }
    }
    if !files {
        assert forall|j: int| 0 <= j < r.len() implies (#[trigger] r[j]).last() == '/' by {
            let e = s[j];
            assert(k.contains(e));
            let q = choose|q: int| 0 <= q < k.len() && k[q] == e;
            assert(keep(k[q], part, files));
            assert(e.0);
            assert(r[j] == completion(head, e));
        }
    }
}

/// Directories come before files among the completions.
pub proof fn law_directories_first(es: Seq<EntrySpec>)
    ensures
        forall|i: int, j: int| 0 <= i < j < sorted(es).len() && !(#[trigger] sorted(es)[i]).0 ==> !(#[trigger] sorted(es)[j]).0,
    decreases es.len(),
{
    if es.len() > 0 {
        law_directories_first(es.drop_last());
        lemma_insert_keeps_dirs_first(sorted(es.drop_last()), es.last());
    }
}

proof fn lemma_insert_keeps_dirs_first(t: Seq<EntrySpec>, x: EntrySpec)
    requires
        forall|i: int, j: int| 0 <= i < j < t.len() && !(#[trigger] t[i]).0 ==> !(#[trigger] t[j]).0,
    ensures
        forall|i: int, j: int| 0 <= i < j < insert_sorted(t, x).len() && !(#[trigger] insert_sorted(t, x)[i]).0 ==> !(#[trigger] insert_sorted(t, x)[j]).0,
    decreases t.len(),
{
    let r = insert_sorted(t, x);
    if t.len() == 0 {
    } else if before_eq(t.last(), x) {
        assert forall|i: int, j: int| 0 <= i < j < r.len() && !(#[trigger] r[i]).0 implies !(#[trigger] r[j]).0 by {
            if j == t.len() {
                if !t.last().0 {
                    assert(!x.0);
                } else {
                    assert(!t[i].0);
                    assert(!t[t.len() - 1].0);
                }
            } else {
                assert(r[i] == t[i] && r[j] == t[j]);
            }
        }
    } else {
        let u = t.drop_last();
        assert forall|i: int, j: int| 0 <= i < j < u.len() && !(#[trigger] u[i]).0 implies !(#[trigger] u[j]).0 by {
            assert(u[i] == t[i] && u[j] == t[j]);
        }
        lemma_insert_keeps_dirs_first(u, x);
        lemma_insert_sorted_members(u, x);
        let v = insert_sorted(u, x);
        assert forall|i: int, j: int| 0 <= i < j < r.len() && !(#[trigger] r[i]).0 implies !(#[trigger] r[j]).0 by {
            if j == r.len() - 1 {
                // r[j] is t.last(), which does not come before x and does not come after the others
                assert(r[j] == t.last());
                if t.last().0 {
                    if r[i] == x {
                        assert(!before_eq(t.last(), x));
                        assert(x.0 == false ==> before_eq(t.last(), x));
                    } else {
                        assert(u.contains(r[i]));
                        let q = choose|q: int| 0 <= q < u.len() && u[q] == r[i];
                        assert(t[q] == r[i]);
                        assert(!t[q].0);
                        assert(t[t.len() - 1] == t.last());
                    }
                }
            } else {
                assert(r[i] == v[i] && r[j] == v[j]);
            }
        }
    }
}


/// A component that survives normalisation is a plain name: never empty, `.` or `..`.
pub open spec fn plain_name(n: Seq<char>) -> bool {
    n != Seq::<char>::empty() && n != seq!['.'] && n != seq!['.', '.']
}

/// Normalisation leaves only plain names, so an expanded path never holds `.`, `..` or an
/// empty component.
pub proof fn law_normalized_names_are_plain(segs: Seq<Seq<char>>)
    ensures
        forall|j: int| 0 <= j < normalize(segs).len() ==> plain_name(#[trigger] normalize(segs)[j]),
    decreases segs.len(),
{
    if segs.len() > 0 {
        law_normalized_names_are_plain(segs.drop_last());
        let st = normalize(segs.drop_last());
        let r = normalize(segs);
        assert forall|j: int| 0 <= j < r.len() implies plain_name(#[trigger] r[j]) by {
            if j < st.len() {
                assert(r[j] == st[j]);
            }
        }
    }
}

/// Asking for fewer completions gives the first ones of a longer list: the list is cut at the
/// end, never at the start.
pub proof fn law_fewer_completions_are_a_prefix(input: Seq<char>, entries: Seq<EntrySpec>, files: bool, m1: nat, m2: nat)
    requires
        m1 <= m2,
    ensures
        ({
            let short = complete_spec(input, entries, files, m1);
            let long = complete_spec(input, entries, files, m2);
            &&& short.len() == if m1 < long.len() { m1 } else { long.len() }
            &&& short == long.take(short.len() as int)
        }),
{
    let (head, part) = split_input(input);
    let s = sorted(kept(entries, part, files));
    let short = complete_spec(input, entries, files, m1);
    let long = complete_spec(input, entries, files, m2);
    assert(short =~= long.take(short.len() as int));
}

proof fn lemma_insert_dir_first(t: Seq<EntrySpec>, x: EntrySpec)
    requires
        forall|i: int, j: int| 0 <= i < j < t.len() && !(#[trigger] t[i]).0 ==> !(#[trigger] t[j]).0,
        (t.len() > 0 && t[0].0) || x.0,
    ensures
        insert_sorted(t, x).len() > 0,
        insert_sorted(t, x)[0].0,
    decreases t.len(),
{
    lemma_insert_sorted_members(t, x);
    if t.len() == 0 {
    } else if before_eq(t.last(), x) {
        if !t[0].0 {
            assert(!t[t.len() - 1].0);
        }
    } else {
        let d = t.drop_last();
        if t.len() == 1 {
            assert(t.last() == t[0]);
        } else {
            assert(d[0] == t[0]);
            assert forall|i: int, j: int| 0 <= i < j < d.len() && !(#[trigger] d[i]).0 implies !(#[trigger] d[j]).0 by {
                assert(d[i] == t[i] && d[j] == t[j]);
            }
            lemma_insert_dir_first(d, x);
        }
        lemma_insert_sorted_members(d, x);
        assert(insert_sorted(t, x)[0] == insert_sorted(d, x)[0]);
    }
}

proof fn lemma_sorted_dir_first(es: Seq<EntrySpec>)
    requires
        exists|j: int| 0 <= j < es.len() && (#[trigger] es[j]).0,
    ensures
        sorted(es).len() > 0,
        sorted(es)[0].0,
    decreases es.len(),
{
    let d = es.drop_last();
    let x = es.last();
    law_directories_first(d);
    lemma_sorted_members(d);
    if !x.0 {
        let j = choose|j: int| 0 <= j < es.len() && (#[trigger] es[j]).0;
        assert(j < es.len() - 1);
        assert(d[j] == es[j]);
        lemma_sorted_dir_first(d);
    }
    lemma_insert_dir_first(sorted(d), x);
}

proof fn lemma_kept_has_dir(es: Seq<EntrySpec>, part: Seq<char>, files: bool, j: int)
    requires
        0 <= j < es.len(),
        es[j].0,
        keep(es[j], part, files),
    ensures
        exists|k: int| 0 <= k < kept(es, part, files).len() && (#[trigger] kept(es, part, files)[k]).0,
    decreases es.len(),
{
    let d = es.drop_last();
    let r = kept(d, part, files);
    if j == es.len() - 1 {
        assert(kept(es, part, files)[r.len() as int] == es[j]);
    } else {
        assert(d[j] == es[j]);
        lemma_kept_has_dir(d, part, files, j);
        let k = choose|k: int| 0 <= k < r.len() && (#[trigger] r[k]).0;
        assert(kept(es, part, files)[k] == r[k]);
    }
}

/// When some directory answers to what was typed, the first completion is a directory (it
/// ends with `/`): directories are listed before files, and the list is cut at the end.
pub proof fn law_directories_complete_first(input: Seq<char>, entries: Seq<EntrySpec>, files: bool, max: nat, j: int)
    requires
        max > 0,
        0 <= j < entries.len(),
        entries[j].0,
        keep(entries[j], split_input(input).1, files),
    ensures
        complete_spec(input, entries, files, max).len() > 0,
        complete_spec(input, entries, files, max)[0].last() == '/',
{
    let (head, part) = split_input(input);
    let k = kept(entries, part, files);
    lemma_kept_has_dir(entries, part, files, j);
    lemma_sorted_dir_first(k);
    let s = sorted(k);
    let r = complete_spec(input, entries, files, max);
    assert(r[0] == completion(head, s[0]));
    assert((head + s[0].1 + seq!['/']).last() == '/');
}

} // verus!
