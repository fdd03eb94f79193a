//! Character-level helpers: conversions between `str` / `String` and `Vec<char>`, ASCII case
//! folding, Unicode whitespace trimming, prefix / substring tests.

use vstd::prelude::*;

verus! {

/// The characters of `s`, in order (std's `str::chars`, collected).
#[verifier::external_body]
pub(crate) fn chars_of(s: &str) -> (r: Vec<char>)
    ensures
        r@ == s@,
{
    s.chars().collect()
}

/// The string made of `v`'s characters, in order (std's `String: FromIterator<char>`).
#[verifier::external_body]
pub(crate) fn string_of(v: &[char]) -> (r: String)
    ensures
        r@ == v@,
{
    v.iter().collect()
}

/// ASCII lower-case of one character (others unchanged), as `char::to_ascii_lowercase`.
pub open spec fn ascii_lower(c: char) -> char {
    if 'A' <= c && c <= 'Z' {
        ((c as u32) + 32) as char
    } else {
        c
    }
}

pub fn ascii_lower_char(c: char) -> (r: char)
    ensures
        r == ascii_lower(c),
{
    if 'A' <= c && c <= 'Z' {
        let v: u32 = (c as u32) + 32;
        proof {
            assert(65 <= v - 32 <= 90);
        }
        let b: u8 = v as u8;
        b as char
    } else {
        c
    }
}

/// `s` with every ASCII letter lower-cased.
pub open spec fn ascii_lowercase(s: Seq<char>) -> Seq<char> {
    s.map_values(|c: char| ascii_lower(c))
}

pub fn ascii_lowercase_vec(s: &[char]) -> (r: Vec<char>)
    ensures
        r@ == ascii_lowercase(s@),
{
    let mut r: Vec<char> = Vec::new();
    let mut i: usize = 0;
    while i < s.len()
        invariant
            i <= s.len(),
            r@ == ascii_lowercase(s@.take(i as int)),
        decreases s.len() - i,
    {
        let c = ascii_lower_char(s[i]);
        r.push(c);
        i = i + 1;
        assert(ascii_lowercase(s@.take(i as int)) =~= ascii_lowercase(s@.take(i - 1)).push(c));
    }
    assert(s@.take(s@.len() as int) =~= s@);
    r
}

/// Equal up to ASCII case (`str::eq_ignore_ascii_case`).
pub open spec fn eq_ignore_ascii_case(a: Seq<char>, b: Seq<char>) -> bool {
    ascii_lowercase(a) == ascii_lowercase(b)
}

pub fn eq_ignore_ascii_case_exec(a: &[char], b: &[char]) -> (r: bool)
    ensures
        r == eq_ignore_ascii_case(a@, b@),
{
    if a.len() != b.len() {
        proof {
            assert(ascii_lowercase(a@).len() != ascii_lowercase(b@).len());
        }
        return false;
    }
    let mut i: usize = 0;
    while i < a.len()
        invariant
            a.len() == b.len(),
            i <= a.len(),
            forall|j: int| 0 <= j < i ==> ascii_lower(#[trigger] a@[j]) == ascii_lower(b@[j]),
        decreases a.len() - i,
    {
        let x = ascii_lower_char(a[i]);
        let y = ascii_lower_char(b[i]);
        if x != y {
            proof {
                assert(ascii_lowercase(a@)[i as int] != ascii_lowercase(b@)[i as int]);
            }
            return false;
        }
        i = i + 1;
    }
    assert(ascii_lowercase(a@) =~= ascii_lowercase(b@));
    true
}

/// Character-wise equality.
pub fn seq_eq(a: &[char], b: &[char]) -> (r: bool)
    ensures
        r == (a@ == b@),
{
    if a.len() != b.len() {
        return false;
    }
    let mut i: usize = 0;
    while i < a.len()
        invariant
            a.len() == b.len(),
            i <= a.len(),
            forall|j: int| 0 <= j < i ==> #[trigger] a@[j] == b@[j],
        decreases a.len() - i,
    {
        if a[i] != b[i] {
            return false;
        }
        i = i + 1;
    }
    assert(a@ =~= b@);
    true
}

/// `p` is a prefix of `s`.
pub open spec fn is_prefix(p: Seq<char>, s: Seq<char>) -> bool {
    p.len() <= s.len() && s.take(p.len() as int) == p
}

pub fn starts_with(s: &[char], p: &[char]) -> (r: bool)
    ensures
        r == is_prefix(p@, s@),
{
    if p.len() > s.len() {
        return false;
    }
    let mut i: usize = 0;
    while i < p.len()
        invariant
            p.len() <= s.len(),
            i <= p.len(),
            forall|j: int| 0 <= j < i ==> #[trigger] s@[j] == p@[j],
        decreases p.len() - i,
    {
        if s[i] != p[i] {
            proof {
                assert(s@.take(p@.len() as int)[i as int] != p@[i as int]);
            }
            return false;
        }
        i = i + 1;
    }
    assert(s@.take(p@.len() as int) =~= p@);
    true
}

/// `p` occurs in `s` at position `k`.
pub open spec fn occurs_at(s: Seq<char>, p: Seq<char>, k: int) -> bool {
    0 <= k && k + p.len() <= s.len() && s.subrange(k, k + p.len()) == p
}

/// `p` occurs somewhere in `s` (`str::contains` with a string pattern).
pub open spec fn contains_seq(s: Seq<char>, p: Seq<char>) -> bool {
    exists|k: int| occurs_at(s, p, k)
}

fn occurs_at_exec(s: &[char], p: &[char], k: usize) -> (r: bool)
    requires
        k + p.len() <= s.len(),
    ensures
        r == occurs_at(s@, p@, k as int),
{
    let mut i: usize = 0;
    while i < p.len()
        invariant
            k + p.len() <= s.len(),
            i <= p.len(),
            forall|j: int| 0 <= j < i ==> #[trigger] s@[k + j] == p@[j],
        decreases p.len() - i,
    {
        if s[k + i] != p[i] {
            proof {
                assert(s@.subrange(k as int, k + p@.len())[i as int] != p@[i as int]);
            }
            return false;
        }
        i = i + 1;
    }
    assert(s@.subrange(k as int, k + p@.len()) =~= p@) by {
        assert forall|j: int| 0 <= j < p@.len() implies s@.subrange(k as int, k + p@.len())[j] == p@[j] by {
            assert(s@[k + j] == p@[j]);
        }
    }
    true
}

pub fn contains(s: &[char], p: &[char]) -> (r: bool)
    ensures
        r == contains_seq(s@, p@),
{
    if p.len() > s.len() {
        proof {
            assert forall|k: int| !occurs_at(s@, p@, k) by {}
        }
        return false;
    }
    if p.len() == 0 {
        assert(s@.subrange(0, 0) =~= p@);
        assert(occurs_at(s@, p@, 0));
        return true;
    }
    let mut k: usize = 0;
    while k <= s.len() - p.len()
        invariant
            1 <= p.len() <= s.len(),
            k <= s.len() - p.len() + 1,
            forall|j: int| 0 <= j < k ==> !occurs_at(s@, p@, j),
        decreases s.len() - p.len() + 1 - k,
    {
        if occurs_at_exec(s, p, k) {
            return true;
        }
        k = k + 1;
    }
    proof {
        assert forall|j: int| !occurs_at(s@, p@, j) by {
            if 0 <= j < k {
            }
        }
    }
    false
}

/// `s` cut at every occurrence of `sep` (empty pieces included; one piece for no `sep`).
pub open spec fn split_on(s: Seq<char>, sep: char) -> Seq<Seq<char>>
    decreases s.len(),
{
    if s.len() == 0 {
        seq![seq![]]
    } else {
        let r = split_on(s.drop_last(), sep);
        if s.last() == sep {
            r.push(seq![])
        } else {
            r.update(r.len() - 1, r.last().push(s.last()))
        }
    }
}

pub proof fn lemma_split_on_len(s: Seq<char>, sep: char)
    ensures
        split_on(s, sep).len() > 0,
    decreases s.len(),
{
    if s.len() > 0 {
        lemma_split_on_len(s.drop_last(), sep);
    }
}

/// Appending text without `sep` extends the last piece.
pub proof fn lemma_split_on_extend(p: Seq<char>, l: Seq<char>, sep: char)
    requires
        forall|j: int| 0 <= j < l.len() ==> #[trigger] l[j] != sep,
    ensures
        split_on(p + l, sep) == split_on(p, sep).drop_last().push(split_on(p, sep).last() + l),
    decreases l.len(),
{
    lemma_split_on_len(p, sep);
    if l.len() == 0 {
        assert(p + l =~= p);
        let r = split_on(p, sep);
        assert(r.drop_last().push(r.last() + l) =~= r);
    } else {
        let l0 = l.drop_last();
        lemma_split_on_extend(p, l0, sep);
        assert((p + l).drop_last() =~= p + l0);
        assert((p + l).last() == l.last());
        let r = split_on(p, sep);
        let r0 = split_on(p + l0, sep);
        lemma_split_on_len(p + l0, sep);
        assert(r0.last() == r.last() + l0);
        assert((r.last() + l0).push(l.last()) =~= r.last() + l);
        assert(r0.update(r0.len() - 1, r0.last().push(l.last())) =~= r.drop_last().push(
            r.last() + l,
        ));
    }
}

/// Unicode `White_Space` (what `char::is_whitespace` and `str::trim` use).
pub open spec fn is_ws(c: char) -> bool {
    let v = c as u32;
    ||| (0x09 <= v && v <= 0x0D)
    ||| v == 0x20
    ||| v == 0x85
    ||| v == 0xA0
    ||| v == 0x1680
    ||| (0x2000 <= v && v <= 0x200A)
    ||| v == 0x2028
    ||| v == 0x2029
    ||| v == 0x202F
    ||| v == 0x205F
    ||| v == 0x3000
}

pub fn is_ws_exec(c: char) -> (r: bool)
    ensures
        r == is_ws(c),
{
    let v = c as u32;
    (0x09 <= v && v <= 0x0D) || v == 0x20 || v == 0x85 || v == 0xA0 || v == 0x1680 || (0x2000
        <= v && v <= 0x200A) || v == 0x2028 || v == 0x2029 || v == 0x202F || v == 0x205F || v
        == 0x3000
}

/// Number of leading whitespace characters of `s`.
pub open spec fn lead_ws(s: Seq<char>) -> nat
    decreases s.len(),
{
    if s.len() > 0 && is_ws(s[0]) {
        1 + lead_ws(s.drop_first())
    } else {
        0
    }
}

/// Number of trailing whitespace characters of `s`.
pub open spec fn trail_ws(s: Seq<char>) -> nat
    decreases s.len(),
{
    if s.len() > 0 && is_ws(s.last()) {
        1 + trail_ws(s.drop_last())
    } else {
        0
    }
}

/// `s` without leading and trailing whitespace (`str::trim`).
pub open spec fn trim(s: Seq<char>) -> Seq<char> {
    let t = s.skip(lead_ws(s) as int);
    t.take(t.len() - trail_ws(t))
}

proof fn lemma_lead_ws(s: Seq<char>, i: int)
    requires
        0 <= i <= s.len(),
        forall|j: int| 0 <= j < i ==> is_ws(#[trigger] s[j]),
        i == s.len() || !is_ws(s[i]),
    ensures
        lead_ws(s) == i,
    decreases s.len(),
{
    if i > 0 {
        lemma_lead_ws(s.drop_first(), i - 1);
    }
}

proof fn lemma_trail_ws(s: Seq<char>, n: int)
    requires
        0 <= n <= s.len(),
        forall|j: int| s.len() - n <= j < s.len() ==> is_ws(#[trigger] s[j]),
        n == s.len() || !is_ws(s[s.len() - n - 1]),
    ensures
        trail_ws(s) == n,
    decreases s.len(),
{
    if n > 0 {
        lemma_trail_ws(s.drop_last(), n - 1);
    }
}

proof fn lemma_lead_ws_le(s: Seq<char>)
    ensures
        lead_ws(s) <= s.len(),
    decreases s.len(),
{
    if s.len() > 0 && is_ws(s[0]) {
        lemma_lead_ws_le(s.drop_first());
    }
}

proof fn lemma_trail_ws_le(s: Seq<char>)
    ensures
        trail_ws(s) <= s.len(),
    decreases s.len(),
{
    if s.len() > 0 && is_ws(s.last()) {
        lemma_trail_ws_le(s.drop_last());
    }
}

/// Bounds `[start, end)` of `trim(s)` inside `s`.
pub fn trim_bounds(s: &[char]) -> (r: (usize, usize))
    ensures
        r.0 <= r.1 <= s.len(),
        s@.subrange(r.0 as int, r.1 as int) == trim(s@),
{
    let mut i: usize = 0;
    while i < s.len() && is_ws_exec(s[i])
        invariant
            i <= s.len(),
            forall|j: int| 0 <= j < i ==> is_ws(#[trigger] s@[j]),
        decreases s.len() - i,
    {
        i = i + 1;
    }
    proof {
        lemma_lead_ws(s@, i as int);
    }
    let mut e: usize = s.len();
    while e > i && is_ws_exec(s[e - 1])
        invariant
            i <= e <= s.len(),
            forall|j: int| e <= j < s.len() ==> is_ws(#[trigger] s@[j]),
        decreases e - i,
    {
        e = e - 1;
    }
    proof {
        let t = s@.skip(i as int);
        assert forall|j: int| t.len() - (s.len() - e) <= j < t.len() implies is_ws(#[trigger] t[j]) by {
            assert(t[j] == s@[i + j]);
        }
        if e > i {
            assert(t[t.len() - (s.len() - e) - 1] == s@[e - 1]);
        }
        lemma_trail_ws(t, s.len() - e);
        assert(s@.subrange(i as int, e as int) =~= t.take(t.len() - trail_ws(t)));
    }
    (i, e)
}

/// `trim(s)` as a vector.
pub fn trim_vec(s: &[char]) -> (r: Vec<char>)
    ensures
        r@ == trim(s@),
{
    let (a, b) = trim_bounds(s);
    slice_vec(s, a, b)
}

/// `s[a..b]` as a vector.
pub fn slice_vec(s: &[char], a: usize, b: usize) -> (r: Vec<char>)
    requires
        a <= b <= s.len(),
    ensures
        r@ == s@.subrange(a as int, b as int),
{
    let mut r: Vec<char> = Vec::new();
    let mut i: usize = a;
    while i < b
        invariant
            a <= i <= b <= s.len(),
            r@ == s@.subrange(a as int, i as int),
        decreases b - i,
    {
        r.push(s[i]);
        i = i + 1;
        assert(r@ =~= s@.subrange(a as int, i as int));
    }
    r
}

/// `a + b` as a vector.
pub fn concat(a: &[char], b: &[char]) -> (r: Vec<char>)
    ensures
        r@ == a@ + b@,
{
    let mut r = slice_vec(a, 0, a.len());
    let mut i: usize = 0;
    while i < b.len()
        invariant
            i <= b.len(),
            r@ == a@ + b@.take(i as int),
        decreases b.len() - i,
    {
        r.push(b[i]);
        i = i + 1;
        assert(r@ =~= a@ + b@.take(i as int));
    }
    assert(a@.subrange(0, a@.len() as int) =~= a@);
    assert(b@.take(b@.len() as int) =~= b@);
    r
}

/// Append `b` to `r`.
pub fn push_all(r: &mut Vec<char>, b: &[char])
    ensures
        final(r)@ == old(r)@ + b@,
{
    let mut i: usize = 0;
    while i < b.len()
        invariant
            i <= b.len(),
            r@ == old(r)@ + b@.take(i as int),
        decreases b.len() - i,
    {
        r.push(b[i]);
        i = i + 1;
        assert(r@ =~= old(r)@ + b@.take(i as int));
    }
    assert(b@.take(b@.len() as int) =~= b@);
}

/// Append the characters of `s` to `r`.
pub fn push_str(r: &mut Vec<char>, s: &str)
    ensures
        final(r)@ == old(r)@ + s@,
{
    let v = chars_of(s);
    push_all(r, v.as_slice());
}

/// What std's `str::to_lowercase` gives for `s` (full Unicode lower-case mapping).
pub uninterp spec fn to_lowercase(s: Seq<char>) -> Seq<char>;

/// std's `str::to_lowercase`. Claimed: the result is `to_lowercase(s)`, a function of `s`
/// alone; nothing is stated of the mapping itself.
#[verifier::external_body]
pub(crate) fn lowercase(s: &str) -> (r: String)
    ensures
        r@ == to_lowercase(s@),
{
    s.to_lowercase()
}

/// What std's `str::to_uppercase` gives for `s` (full Unicode upper-case mapping).
pub uninterp spec fn to_uppercase(s: Seq<char>) -> Seq<char>;

/// std's `str::to_uppercase`. Claimed: the result is `to_uppercase(s)`, a function of `s`
/// alone; nothing is stated of the mapping itself.
#[verifier::external_body]
pub(crate) fn uppercase(s: &str) -> (r: String)
    ensures
        r@ == to_uppercase(s@),
{
    s.to_uppercase()
}

/// Lexicographic order by code point (the order of `str` / `String`, whose UTF-8 byte order
/// agrees with code point order).
pub open spec fn lex_le(a: Seq<char>, b: Seq<char>) -> bool
    decreases a.len(),
{
    if a.len() == 0 {
        true
    } else if b.len() == 0 {
        false
    } else if a[0] != b[0] {
        (a[0] as u32) < (b[0] as u32)
    } else {
        lex_le(a.drop_first(), b.drop_first())
    }
}

pub fn lex_le_exec(a: &[char], b: &[char]) -> (r: bool)
    ensures
        r == lex_le(a@, b@),
{
    let mut i: usize = 0;
    assert(a@.skip(0) =~= a@);
    assert(b@.skip(0) =~= b@);
    while i < a.len() && i < b.len() && a[i] == b[i]
        invariant
            i <= a.len(),
            i <= b.len(),
            forall|j: int| 0 <= j < i ==> #[trigger] a@[j] == b@[j],
            lex_le(a@, b@) == lex_le(a@.skip(i as int), b@.skip(i as int)),
        decreases a.len() - i,
    {
        proof {
            assert(a@.skip(i as int).drop_first() =~= a@.skip(i + 1));
            assert(b@.skip(i as int).drop_first() =~= b@.skip(i + 1));
        }
        i = i + 1;
    }
    if i == a.len() {
        true
    } else if i == b.len() {
        false
    } else {
        (a[i] as u32) < (b[i] as u32)
    }
}


/// `s` without trailing whitespace (`str::trim_end`).
pub open spec fn trim_end(s: Seq<char>) -> Seq<char> {
    s.take(s.len() - trail_ws(s))
}

/// `trim_end(s)` as a vector.
pub fn trim_end_vec(s: &[char]) -> (r: Vec<char>)
    ensures
        r@ == trim_end(s@),
{
    let mut e: usize = s.len();
    while e > 0 && is_ws_exec(s[e - 1])
        invariant
            e <= s.len(),
            forall|j: int| e <= j < s.len() ==> is_ws(#[trigger] s@[j]),
        decreases e,
    {
        e = e - 1;
    }
    proof {
        lemma_trail_ws(s@, s.len() - e);
    }
    slice_vec(s, 0, e)
}

/// The non-empty sequences of `ss`, in order.
pub open spec fn nonempty(ss: Seq<Seq<char>>) -> Seq<Seq<char>>
    decreases ss.len(),
{
    if ss.len() == 0 {
        seq![]
    } else if ss.last().len() == 0 {
        nonempty(ss.drop_last())
    } else {
        nonempty(ss.drop_last()).push(ss.last())
    }
}

/// `s` cut at every whitespace character (empty pieces included).
pub open spec fn split_ws(s: Seq<char>) -> Seq<Seq<char>>
    decreases s.len(),
{
    if s.len() == 0 {
        seq![seq![]]
    } else {
        let r = split_ws(s.drop_last());
        if is_ws(s.last()) {
            r.push(seq![])
        } else {
            r.update(r.len() - 1, r.last().push(s.last()))
        }
    }
}

proof fn lemma_split_ws_len(s: Seq<char>)
    ensures
        split_ws(s).len() > 0,
    decreases s.len(),
{
    if s.len() > 0 {
        lemma_split_ws_len(s.drop_last());
    }
}

/// The whitespace-separated words of `s` (`str::split_whitespace`).
pub open spec fn words(s: Seq<char>) -> Seq<Seq<char>> {
    nonempty(split_ws(s))
}

/// The views of a sequence of character vectors.
pub open spec fn views(v: Seq<Vec<char>>) -> Seq<Seq<char>> {
    v.map_values(|x: Vec<char>| x@)
}

/// `words(s)`, each as a vector.
pub fn words_vec(s: &[char]) -> (r: Vec<Vec<char>>)
    ensures
        views(r@) == words(s@),
{
    let mut out: Vec<Vec<char>> = Vec::new();
    let mut cur: Vec<char> = Vec::new();
    let mut i: usize = 0;
    proof {
        assert(s@.take(0) =~= Seq::<char>::empty());
        assert(split_ws(s@.take(0)).drop_last() =~= Seq::<Seq<char>>::empty());
    }
    while i < s.len()
        invariant
            i <= s.len(),
            split_ws(s@.take(i as int)).len() > 0,
            split_ws(s@.take(i as int)).last() == cur@,
            views(out@) == nonempty(split_ws(s@.take(i as int)).drop_last()),
        decreases s.len() - i,
    {
        let ghost prev = split_ws(s@.take(i as int));
        proof {
            assert(s@.take(i + 1).drop_last() =~= s@.take(i as int));
            assert(s@.take(i + 1).last() == s@[i as int]);
        }
        if is_ws_exec(s[i]) {
            let ghost before = views(out@);
            if cur.len() > 0 {
                out.push(cur);
            }
            cur = Vec::new();
            proof {
                let next = split_ws(s@.take(i + 1));
                assert(next == prev.push(seq![]));
                assert(next.drop_last() =~= prev);
                if prev.last().len() > 0 {
                    assert(views(out@) =~= before.push(prev.last()));
                } else {
                    assert(views(out@) =~= before);
                }
                assert(cur@ =~= Seq::<char>::empty());
            }
        } else {
            cur.push(s[i]);
            proof {
                let next = split_ws(s@.take(i + 1));
                assert(next == prev.update(prev.len() - 1, prev.last().push(s@[i as int])));
                assert(next.drop_last() =~= prev.drop_last());
            }
        }
        i = i + 1;
    }
    let ghost all = split_ws(s@.take(i as int));
    let ghost before = views(out@);
    if cur.len() > 0 {
        out.push(cur);
    }
    proof {
        assert(s@.take(i as int) =~= s@);
        if all.last().len() > 0 {
            assert(views(out@) =~= before.push(all.last()));
        } else {
            assert(views(out@) =~= before);
        }
    }
    out
}

/// `s` with runs of equal neighbours collapsed to one (`Vec::dedup`).
pub open spec fn dedup(s: Seq<Seq<char>>) -> Seq<Seq<char>>
    decreases s.len(),
{
    if s.len() == 0 {
        s
    } else if s.len() >= 2 && s[s.len() - 2] == s.last() {
        dedup(s.drop_last())
    } else {
        dedup(s.drop_last()).push(s.last())
    }
}

proof fn lemma_dedup_last(s: Seq<Seq<char>>)
    requires
        s.len() > 0,
    ensures
        dedup(s).len() > 0,
        dedup(s).last() == s.last(),
    decreases s.len(),
{
    if s.len() >= 2 && s[s.len() - 2] == s.last() {
        lemma_dedup_last(s.drop_last());
    }
}

/// `dedup(s)`.
pub fn dedup_vec(s: Vec<Vec<char>>) -> (r: Vec<Vec<char>>)
    ensures
        views(r@) == dedup(views(s@)),
{
    let mut out: Vec<Vec<char>> = Vec::new();
    let mut i: usize = 0;
    while i < s.len()
        invariant
            i <= s.len(),
            views(out@) == dedup(views(s@).take(i as int)),
        decreases s.len() - i,
    {
        let ghost t = views(s@).take(i + 1);
        proof {
            assert(t.drop_last() =~= views(s@).take(i as int));
            assert(t.last() == s@[i as int]@);
            if i > 0 {
                assert(t[t.len() - 2] == s@[i - 1]@);
                lemma_dedup_last(views(s@).take(i as int));
                assert(views(s@).take(i as int).last() == s@[i - 1]@);
            }
        }
        let same = i > 0 && seq_eq(s[i - 1].as_slice(), s[i].as_slice());
        if !same {
            out.push(s[i].clone());
            proof {
                assert(views(out@) =~= dedup(views(s@).take(i as int)).push(s@[i as int]@));
            }
        }
        i = i + 1;
    }
    proof {
        assert(views(s@).take(i as int) =~= views(s@));
    }
    out
}

/// The sequences of `ss` joined with `sep` between neighbours (`[String]::join`).
pub open spec fn join(ss: Seq<Seq<char>>, sep: Seq<char>) -> Seq<char>
    decreases ss.len(),
{
    if ss.len() == 0 {
        seq![]
    } else if ss.len() == 1 {
        ss[0]
    } else {
        join(ss.drop_last(), sep) + sep + ss.last()
    }
}

/// Append `join(ss, sep)`.
pub fn push_join(out: &mut Vec<char>, ss: &[Vec<char>], sep: &[char])
    ensures
        final(out)@ == old(out)@ + join(views(ss@), sep@),
{
    let mut k: usize = 0;
    while k < ss.len()
        invariant
            k <= ss.len(),
            out@ == old(out)@ + join(views(ss@).take(k as int), sep@),
        decreases ss.len() - k,
    {
        proof {
            assert(views(ss@).take(k + 1).drop_last() =~= views(ss@).take(k as int));
            assert(views(ss@).take(k + 1).last() == ss@[k as int]@);
        }
        if k > 0 {
            push_all(out, sep);
        }
        push_all(out, ss[k].as_slice());
        proof {
            if k == 0 {
                assert(views(ss@).take(1)[0] == ss@[0]@);
                assert(out@ =~= old(out)@ + join(views(ss@).take(1), sep@));
            } else {
                assert(out@ =~= old(out)@ + join(views(ss@).take(k + 1), sep@));
            }
        }
        k = k + 1;
    }
    proof {
        assert(views(ss@).take(k as int) =~= views(ss@));
    }
}

} // verus!
