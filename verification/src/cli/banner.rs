//! The startup banner's line.
use vstd::prelude::*;
use crate::clock::{duration_subsec_nanos, since_unix_epoch, system_time_now};

verus! {

/// How many banner lines there are.
pub const LOADING_LINE_COUNT: u32 = 18;

/// The banner line numbered `i` (below [`LOADING_LINE_COUNT`]).
pub open spec fn loading_line_spec(i: u32) -> &'static str {
    if i == 0 {
        "loading egirl..."
    } else if i == 1 {
        "loading femboy.exe..."
    } else if i == 2 {
        "initializing the bit mines..."
    } else if i == 3 {
        "summoning the cipher demons..."
    } else if i == 4 {
        "negotiating with entropy..."
    } else if i == 5 {
        "compiling conspiracy theories..."
    } else if i == 6 {
        "defragmenting your secrets..."
    } else if i == 7 {
        "corrupting your filesystem..."
    } else if i == 8 {
        "asking entropy for permission..."
    } else if i == 9 {
        "vibing with the cipher..."
    } else if i == 10 {
        "touching grass (failed)..."
    } else if i == 11 {
        "skill issue checking..."
    } else if i == 12 {
        "manifesting your keyfile..."
    } else if i == 13 {
        "performing security theater..."
    } else if i == 14 {
        "gaslighting your plaintext..."
    } else if i == 15 {
        "certifying this is not a virus..."
    } else if i == 16 {
        "zeroizing your problems..."
    } else {
        "isreal.exe finished"
    }
}

/// A banner line picked by the clock: the line numbered by the nanoseconds of the
/// current time modulo the number of lines (the first line for a clock set before
/// the Unix epoch).
pub fn loading_line() -> (line: &'static str)
    ensures
        exists|i: u32| i < LOADING_LINE_COUNT && line == loading_line_spec(i),
{
    let now = system_time_now();
    let nanos = match since_unix_epoch(&now) {
        Some(d) => duration_subsec_nanos(&d),
        None => 0,
    };
    loading_line_at(nanos)
}

/// The banner line that a clock reading picks: the line numbered by the reading's
/// nanoseconds modulo the number of lines.
pub fn loading_line_at(subsec_nanos: u32) -> (line: &'static str)
    ensures
        line == loading_line_spec(subsec_nanos % LOADING_LINE_COUNT),
{
    let i = subsec_nanos % LOADING_LINE_COUNT;
    if i == 0 {
        "loading egirl..."
    } else if i == 1 {
        "loading femboy.exe..."
    } else if i == 2 {
        "initializing the bit mines..."
    } else if i == 3 {
        "summoning the cipher demons..."
    } else if i == 4 {
        "negotiating with entropy..."
    } else if i == 5 {
        "compiling conspiracy theories..."
    } else if i == 6 {
        "defragmenting your secrets..."
    } else if i == 7 {
        "corrupting your filesystem..."
    } else if i == 8 {
        "asking entropy for permission..."
    } else if i == 9 {
        "vibing with the cipher..."
    } else if i == 10 {
        "touching grass (failed)..."
    } else if i == 11 {
        "skill issue checking..."
    } else if i == 12 {
        "manifesting your keyfile..."
    } else if i == 13 {
        "performing security theater..."
    } else if i == 14 {
        "gaslighting your plaintext..."
    } else if i == 15 {
        "certifying this is not a virus..."
    } else if i == 16 {
        "zeroizing your problems..."
    } else {
        "isreal.exe finished"
    }
}

} // verus!
