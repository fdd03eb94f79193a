//! Telemetry-style number / time formatting.

use vstd::prelude::*;

use crate::text::string_of;

verus! {

/// The ASCII digit for `d` (`d < 10`).
pub open spec fn digit(d: nat) -> char {
    (48 + d) as char
}

/// Decimal digits of `n`, without leading zeros (`"0"` for zero) — what `{}` prints.
pub open spec fn decimal(n: nat) -> Seq<char>
    decreases n,
{
    if n < 10 {
        seq![digit(n)]
    } else {
        decimal(n / 10).push(digit(n % 10))
    }
}

/// `n` zero-padded to at least two digits — what `{:02}` prints.
pub open spec fn two_digits(n: nat) -> Seq<char> {
    if n < 10 {
        seq!['0', digit(n)]
    } else {
        decimal(n)
    }
}

/// Append the decimal digits of `n`.
pub fn push_decimal(out: &mut Vec<char>, n: u64)
    ensures
        final(out)@ == old(out)@ + decimal(n as nat),
    decreases n,
{
    if n >= 10 {
        push_decimal(out, n / 10);
    }
    let d: u8 = (n % 10) as u8;
    out.push((48u8 + d) as char);
    assert(out@ =~= old(out)@ + decimal(n as nat));
}

fn push_two_digits(out: &mut Vec<char>, n: u64)
    ensures
        final(out)@ == old(out)@ + two_digits(n as nat),
{
    if n < 10 {
        out.push('0');
    }
    push_decimal(out, n);
    assert(out@ =~= old(out)@ + two_digits(n as nat));
}

/// `T+HH:MM:SS.t`, with a day count `Nd ` after `T+` once a day has passed, for an uptime
/// of `tenths` tenths of a second.
pub open spec fn uptime_spec(tenths: nat) -> Seq<char> {
    let t = tenths % 10;
    let s = tenths / 10;
    let d = s / 86_400;
    let h = (s / 3_600) % 24;
    let m = (s / 60) % 60;
    let sec = s % 60;
    let clock = two_digits(h) + seq![':'] + two_digits(m) + seq![':'] + two_digits(sec) + seq!['.']
        + decimal(t);
    if d > 0 {
        seq!['T', '+'] + decimal(d) + seq!['d', ' '] + clock
    } else {
        seq!['T', '+'] + clock
    }
}

/// Mission-clock uptime from a count of tenths of a second: `T+00:12:34.5`; past 24 h a day
/// count is prefixed: `T+1d 03:22:11.4`. Width is fixed within a day, so the status bar does
/// not jitter.
pub fn uptime_tenths(total_tenths: u64) -> (r: String)
    ensures
        r@ == uptime_spec(total_tenths as nat),
{
    let tenths = total_tenths % 10;
    let s = total_tenths / 10;
    let d = s / 86_400;
    let h = (s / 3_600) % 24;
    let m = (s / 60) % 60;
    let sec = s % 60;
    let mut out: Vec<char> = Vec::new();
    out.push('T');
    out.push('+');
    if d > 0 {
        push_decimal(&mut out, d);
        out.push('d');
        out.push(' ');
    }
    push_two_digits(&mut out, h);
    out.push(':');
    push_two_digits(&mut out, m);
    out.push(':');
    push_two_digits(&mut out, sec);
    out.push('.');
    push_decimal(&mut out, tenths);
    assert(out@ =~= uptime_spec(total_tenths as nat));
    string_of(out.as_slice())
}

/// Within the first day the uptime text always has the same width (`T+HH:MM:SS.t`, twelve
/// characters), so a status bar showing it does not jitter.
pub proof fn law_uptime_fixed_width_within_a_day(tenths: nat)
    requires
        tenths < 864_000,
    ensures
        uptime_spec(tenths).len() == 12,
{
    let s = tenths / 10;
    assert(s < 86_400);
    assert(s / 86_400 == 0);
    let h = (s / 3_600) % 24;
    let m = (s / 60) % 60;
    let sec = s % 60;
    assert(two_digits(h).len() == 2) by {
        if h >= 10 {
            assert(decimal(h / 10).len() == 1);
        }
    }
    assert(two_digits(m).len() == 2) by {
        if m >= 10 {
            assert(decimal(m / 10).len() == 1);
        }
    }
    assert(two_digits(sec).len() == 2) by {
        if sec >= 10 {
            assert(decimal(sec / 10).len() == 1);
        }
    }
    assert(decimal(tenths % 10).len() == 1);
}

} // verus!
