//! The daily cache sweep: which files and directories it removes, and when it
//! runs next. The walk itself is done by the caller.
use vstd::prelude::*;
use crate::listing::{decimal, to_decimal};
use crate::text::{push_str, same_text, string_from};

verus! {

/// The channel index file.
pub const TV_CHANNEL_FILE: &'static str = "channels.json";

/// The show listings file.
pub const TV_SHOWS_FILE: &'static str = "tv_shows.json";

/// How long a cached file is kept, in seconds: two days.
pub const EXPIRY_SECS: u64 = 172800;

/// The local time of day of the sweep, in seconds after midnight: 01:30.
pub const SWEEP_AT_SECS: u64 = 5400;

pub const SECS_PER_DAY: u64 = 86400;

/// Files that the sweep never removes, whatever their age.
pub open spec fn protected(name: Seq<char>) -> bool {
    name == TV_CHANNEL_FILE@ || name == TV_SHOWS_FILE@
}

/// Whether `name` is one of the protected index files.
pub fn is_protected(name: &str) -> (r: bool)
    ensures
        r == protected(name@),
{
    same_text(name, TV_CHANNEL_FILE) || same_text(name, TV_SHOWS_FILE)
}

/// Whether the sweep removes a file: one last modified more than the
/// retention window ago, unless it is protected.
pub fn should_remove_file(name: &str, age_secs: u64) -> (r: bool)
    ensures
        r == (age_secs > EXPIRY_SECS && !protected(name@)),
{
    age_secs > EXPIRY_SECS && !is_protected(name)
}

/// Whether the sweep removes a directory, once its children have been swept:
/// one left empty, unless it is the cache root.
pub fn should_remove_dir(is_root: bool, remaining_entries: usize) -> (r: bool)
    ensures
        r == (!is_root && remaining_entries == 0),
{
    !is_root && remaining_entries == 0
}

/// Seconds from `secs_of_day` (local) to the next sweep instant.
pub open spec fn until_sweep(secs_of_day: int) -> int {
    if secs_of_day < SWEEP_AT_SECS {
        SWEEP_AT_SECS - secs_of_day
    } else {
        SECS_PER_DAY - secs_of_day + SWEEP_AT_SECS
    }
}

/// How long the sweep sleeps when woken at `secs_of_day` local seconds after
/// midnight: until the next sweep instant, never more than a day.
pub fn secs_until_sweep(secs_of_day: u32) -> (r: u64)
    requires
        secs_of_day < SECS_PER_DAY,
    ensures
        r == until_sweep(secs_of_day as int),
        0 < r <= SECS_PER_DAY,
        (secs_of_day + r) % (SECS_PER_DAY as int) == SWEEP_AT_SECS,
{
    let s = secs_of_day as u64;
    if s < SWEEP_AT_SECS {
        SWEEP_AT_SECS - s
    } else {
        SECS_PER_DAY - s + SWEEP_AT_SECS
    }
}

/// Relies on `chrono::Local::now` and `Timelike::num_seconds_from_midnight`:
/// the local time of day, in non-leap seconds after midnight (0 to 86399).
#[verifier::external_body]
fn local_seconds_of_day() -> (r: u32)
    ensures
        r < SECS_PER_DAY,
{
    chrono::Timelike::num_seconds_from_midnight(&chrono::Local::now())
}

/// Seconds from now until the next sweep (and expiry of the listings).
pub fn expiry_time() -> (r: u64)
    ensures
        0 < r <= SECS_PER_DAY,
{
    secs_until_sweep(local_seconds_of_day())
}

/// Two decimal digits at least.
pub open spec fn padded(n: nat) -> Seq<char> {
    if n < 10 {
        seq!['0'] + decimal(n)
    } else {
        decimal(n)
    }
}

/// `h:mm:ss`, the hours only where there are any, each part of two digits at least.
pub open spec fn clock_of(secs: nat) -> Seq<char> {
    let h = secs / 3600;
    let m = (secs % 3600) / 60;
    let s = secs % 60;
    if h > 0 {
        padded(h) + seq![':'] + padded(m) + seq![':'] + padded(s)
    } else {
        padded(m) + seq![':'] + padded(s)
    }
}

fn push_padded(out: &mut Vec<char>, n: u64)
    ensures
        final(out)@ == old(out)@ + padded(n as nat),
{
    if n < 10 {
        out.push('0');
    }
    let d = to_decimal(n);
    push_str(out, d.as_str());
}

/// Formats a duration in seconds as a clock reading, for the sweep's log.
pub fn fmt(secs: u64) -> (r: String)
    ensures
        r@ == clock_of(secs as nat),
{
    let h = secs / 3600;
    let m = (secs % 3600) / 60;
    let s = secs % 60;
    let mut out: Vec<char> = Vec::new();
    if h > 0 {
        push_padded(&mut out, h);
        out.push(':');
    }
    push_padded(&mut out, m);
    out.push(':');
    push_padded(&mut out, s);
    assert(out@ =~= clock_of(secs as nat));
    string_from(out.as_slice())
}

} // verus!
