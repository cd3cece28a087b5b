//! The one duration format a live row and a completion line both use:
//! `8s`, `1m54s`, `2h05m11s`, truncated toward zero.

use vstd::prelude::*;
use std::time::Duration;
use crate::fmt::{dec, dec2, push_dec, push_dec2};
use crate::text::string_of;

verus! {

/// How many nanoseconds a `Duration` spans in all (`Duration::as_nanos`).
pub uninterp spec fn total_nanos(d: Duration) -> nat;

/// The whole seconds in a duration.
pub open spec fn whole_secs(d: Duration) -> nat {
    total_nanos(d) / 1_000_000_000
}

/// The whole milliseconds in a duration.
pub open spec fn whole_millis(d: Duration) -> nat {
    total_nanos(d) / 1_000_000
}

/// Calls `Duration::as_secs`, which std documents as the whole seconds the
/// duration holds: the total nanoseconds over 10^9, rounded down.
#[verifier::external_body]
pub(crate) fn secs_of(d: Duration) -> (s: u64)
    ensures
        s == whole_secs(d),
{
    d.as_secs()
}

/// Calls `Duration::as_millis`, documented as the whole milliseconds the
/// duration holds.
#[verifier::external_body]
pub(crate) fn millis_of(d: Duration) -> (ms: u128)
    ensures
        ms == whole_millis(d),
{
    d.as_millis()
}

/// Calls `Duration::as_nanos`, documented as the whole nanoseconds the
/// duration holds.
#[verifier::external_body]
pub(crate) fn nanos_of(d: Duration) -> (n: u128)
    ensures
        n == total_nanos(d),
{
    d.as_nanos()
}

/// Calls `Duration::from_secs`: a duration of exactly `s` seconds.
#[verifier::external_body]
pub(crate) fn duration_from_secs(s: u64) -> (d: Duration)
    ensures
        total_nanos(d) == s * 1_000_000_000,
{
    Duration::from_secs(s)
}

/// Calls `Duration::from_millis`: a duration of exactly `ms` milliseconds.
#[verifier::external_body]
pub(crate) fn duration_from_millis(ms: u64) -> (d: Duration)
    ensures
        total_nanos(d) == ms * 1_000_000,
{
    Duration::from_millis(ms)
}

/// The text of a duration of `secs` whole seconds.
pub open spec fn task_duration_text(secs: nat) -> Seq<char> {
    let hours = secs / 3600;
    let minutes = (secs % 3600) / 60;
    let seconds = secs % 60;
    if hours > 0 {
        dec(hours) + seq!['h'] + dec2(minutes) + seq!['m'] + dec2(seconds) + seq!['s']
    } else if minutes > 0 {
        dec(minutes) + seq!['m'] + dec2(seconds) + seq!['s']
    } else {
        dec(seconds) + seq!['s']
    }
}

/// `secs` whole seconds in the task-duration format.
pub fn format_secs(secs: u64) -> (r: String)
    ensures
        r@ == task_duration_text(secs as nat),
{
    let hours = secs / 3600;
    let minutes = (secs % 3600) / 60;
    let seconds = secs % 60;
    let mut out: Vec<char> = Vec::new();
    if hours > 0 {
        push_dec(&mut out, hours);
        out.push('h');
        push_dec2(&mut out, minutes);
        out.push('m');
        push_dec2(&mut out, seconds);
        out.push('s');
    } else if minutes > 0 {
        push_dec(&mut out, minutes);
        out.push('m');
        push_dec2(&mut out, seconds);
        out.push('s');
    } else {
        push_dec(&mut out, seconds);
        out.push('s');
    }
    assert(out@ =~= task_duration_text(secs as nat));
    string_of(out.as_slice())
}

/// A task duration, truncated to whole seconds, never rounded up.
pub fn format_task_duration(elapsed: Duration) -> (r: String)
    ensures
        r@ == task_duration_text(whole_secs(elapsed)),
{
    format_secs(secs_of(elapsed))
}

} // verus!

verus! {

/// otto's general duration format for a length of `ms` milliseconds: `200ms`
/// under a second, `45.0s` (tenths, rounded) under a minute, `2m14s` under an
/// hour, `1h2m3s` beyond.
pub open spec fn general_duration_text(ms: nat) -> Seq<char> {
    let tenths = (ms + 50) / 100;
    let secs = ms / 1000;
    if ms < 1000 {
        dec(ms) + "ms"@
    } else if ms < 60000 {
        dec(tenths / 10) + seq!['.'] + dec(tenths % 10) + seq!['s']
    } else if secs < 3600 {
        dec(secs / 60) + seq!['m'] + dec(secs % 60) + seq!['s']
    } else {
        dec(secs / 3600) + seq!['h'] + dec((secs % 3600) / 60) + seq!['m'] + dec(secs % 60) + seq!['s']
    }
}

/// `ms` milliseconds in the general duration format.
pub fn format_millis(ms: u64) -> (r: String)
    ensures
        r@ == general_duration_text(ms as nat),
{
    let mut out: Vec<char> = Vec::new();
    let secs = ms / 1000;
    if ms < 1000 {
        push_dec(&mut out, ms);
        out.push('m');
        out.push('s');
        proof {
            reveal_strlit("ms");
            assert("ms"@ =~= seq!['m', 's']);
        }
    } else if ms < 60000 {
        let tenths = (ms + 50) / 100;
        push_dec(&mut out, tenths / 10);
        out.push('.');
        push_dec(&mut out, tenths % 10);
        out.push('s');
    } else if secs < 3600 {
        push_dec(&mut out, secs / 60);
        out.push('m');
        push_dec(&mut out, secs % 60);
        out.push('s');
    } else {
        push_dec(&mut out, secs / 3600);
        out.push('h');
        push_dec(&mut out, (secs % 3600) / 60);
        out.push('m');
        push_dec(&mut out, secs % 60);
        out.push('s');
    }
    assert(out@ =~= general_duration_text(ms as nat));
    string_of(out.as_slice())
}

/// A duration in the general format, from its whole milliseconds (held
/// at `u64::MAX` milliseconds past that).
pub fn format_duration(elapsed: Duration) -> (r: String)
    ensures
        whole_millis(elapsed) <= u64::MAX ==> r@ == general_duration_text(whole_millis(elapsed)),
        whole_millis(elapsed) > u64::MAX ==> r@ == general_duration_text(u64::MAX as nat),
{
    let ms = millis_of(elapsed);
    let ms64: u64 = if ms > u64::MAX as u128 { u64::MAX } else { ms as u64 };
    format_millis(ms64)
}

} // verus!
