//! From the registry's tick counts to calendar time.
//!
//! The registry counts 100-nanosecond ticks since 1601-01-01. A
//! [`Timestamp`] holds the seconds since 1970-01-01 and the calendar date
//! and time of day that chrono reads from them, in UTC.
use vstd::prelude::*;
use chrono::DateTime;

verus! {

/// The calendar time `sec` seconds after 1970-01-01 00:00:00 UTC as chrono
/// writes it: what `to_string` gives for chrono's `DateTime<Utc>` of that
/// second.
pub uninterp spec fn utc_text(sec: int) -> Seq<char>;

/// Ticks in one second.
pub const TICKS_PER_SECOND: i64 = 10_000_000;

/// Seconds from 1601-01-01 to 1970-01-01.
pub const EPOCH_GAP_SECONDS: i64 = 11_644_473_600;

/// The first second of the year -262143, the earliest that chrono holds.
pub const MIN_UNIX_SECONDS: i64 = -8_334_601_228_800;

/// The last second of the year 262142, the latest that chrono holds.
pub const MAX_UNIX_SECONDS: i64 = 8_210_266_876_799;

/// Whether chrono has a calendar time for `sec` seconds after 1970-01-01.
pub open spec fn representable(sec: int) -> bool {
    MIN_UNIX_SECONDS <= sec <= MAX_UNIX_SECONDS
}

/// The quotient of `a` by a positive `b`, rounded toward zero.
pub open spec fn truncating_quotient(a: int, b: int) -> int
    recommends
        b > 0,
{
    if a >= 0 {
        a / b
    } else {
        -((-a) / b)
    }
}

/// The Unix seconds of a tick count: whole seconds, the fraction dropped,
/// less the gap between the two epochs.
pub open spec fn filetime_seconds(ticks: int) -> int {
    truncating_quotient(ticks, TICKS_PER_SECOND as int) - EPOCH_GAP_SECONDS
}

/// A calendar time in UTC, to the second.
#[derive(Debug)]
pub struct Timestamp {
    seconds: i64,
    text: String,
}

/// The mathematical value of a [`Timestamp`].
pub struct TimestampView {
    /// Seconds after 1970-01-01 00:00:00 UTC.
    pub seconds: int,
    /// Date and time of day, written out.
    pub text: Seq<char>,
}

/// The calendar time `sec` seconds after 1970-01-01 00:00:00 UTC.
pub open spec fn moment(sec: int) -> TimestampView {
    TimestampView { seconds: sec, text: utc_text(sec) }
}

impl View for Timestamp {
    type V = TimestampView;

    closed spec fn view(&self) -> TimestampView {
        TimestampView { seconds: self.seconds as int, text: self.text@ }
    }
}

/// Calls `chrono::DateTime::from_timestamp(sec, 0)` and `to_string` on the
/// time it gives. Claimed of chrono: it has a time exactly for the seconds
/// between its first and last year; the text is given a name and nothing
/// more is said of it.
#[verifier::external_body]
fn utc_text_of(sec: i64) -> (res: Option<String>)
    ensures
        res is Some <==> representable(sec as int),
        res matches Some(text) ==> text@ == utc_text(sec as int),
{
    match DateTime::from_timestamp(sec, 0) {
        Some(moment) => Some(moment.to_string()),
        None => None,
    }
}

/// The calendar time `sec` seconds after 1970-01-01 00:00:00 UTC, or `None`
/// where chrono has no such time.
pub fn epoch_to_timestamp(sec: i64) -> (res: Option<Timestamp>)
    ensures
        res is Some <==> representable(sec as int),
        res matches Some(t) ==> t@ == moment(sec as int),
{
    match utc_text_of(sec) {
        Some(text) => Some(Timestamp { seconds: sec, text }),
        None => None,
    }
}

/// The Unix seconds of a tick count.
pub fn filetime_to_unix(ticks: i64) -> (sec: i64)
    ensures
        sec == filetime_seconds(ticks as int),
{
    ticks / TICKS_PER_SECOND - EPOCH_GAP_SECONDS
}

/// Every tick count has a calendar time.
pub proof fn lemma_filetime_representable(ticks: i64)
    ensures
        representable(filetime_seconds(ticks as int)),
{
}

/// The calendar time of a tick count.
pub fn filetime_to_timestamp(ticks: i64) -> (t: Timestamp)
    ensures
        t@ == moment(filetime_seconds(ticks as int)),
{
    let sec = filetime_to_unix(ticks);
    proof {
        lemma_filetime_representable(ticks);
    }
    epoch_to_timestamp(sec).unwrap()
}

impl Timestamp {
    /// Seconds after 1970-01-01 00:00:00 UTC.
    pub fn seconds(&self) -> (sec: i64)
        ensures
            sec == self@.seconds,
    {
        self.seconds
    }

    /// Date and time of day, written out.
    pub fn text(&self) -> (text: &str)
        ensures
            text@ == self@.text,
    {
        self.text.as_str()
    }
}

impl Clone for Timestamp {
    fn clone(&self) -> (copy: Timestamp)
        ensures
            copy@ == self@,
    {
        Timestamp { seconds: self.seconds, text: self.text.clone() }
    }
}

} // verus!
