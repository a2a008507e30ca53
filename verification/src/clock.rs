//! Points in time, and the one place where the library reads the clock.

use vstd::prelude::*;
use std::time::SystemTime;
use crate::file_hash::{epoch_offset, forward_nanos, secs_nanos, signed_secs, EpochOffset};
use crate::text::{decimal, push_decimal, text_of};

verus! {

/// A point in time: whole seconds since the Unix epoch, and the nanoseconds
/// after them.
#[derive(Clone, Copy, Debug, PartialEq, Eq, Structural)]
pub struct Timestamp {
    pub secs: i64,
    pub nanos: u32,
}

impl Timestamp {
    /// `self` lies after `other`.
    pub open spec fn is_after(&self, other: &Timestamp) -> bool {
        self.secs > other.secs || (self.secs == other.secs && self.nanos > other.nanos)
    }

    /// Whether `self` lies after `other`.
    pub fn after(&self, other: &Timestamp) -> (yes: bool)
        ensures
            yes == self.is_after(other),
    {
        self.secs > other.secs || (self.secs == other.secs && self.nanos > other.nanos)
    }
}

/// `SystemTime::now`: a reading of the system clock. Nothing is claimed of
/// it.
#[verifier::external_body]
pub(crate) fn system_now() -> (out: SystemTime) {
    SystemTime::now()
}

/// The point in time at a distance from the epoch: the seconds rounded
/// down and the nanoseconds after them. Distances beyond what 64 bits hold
/// are cut off.
pub open spec fn at_offset(offset: EpochOffset) -> Timestamp {
    Timestamp { secs: signed_secs(offset), nanos: forward_nanos(offset) }
}

/// The point in time at a distance from the epoch.
pub fn timestamp_at(offset: EpochOffset) -> (out: Timestamp)
    ensures
        out == at_offset(offset),
{
    let (secs, nanos) = secs_nanos(offset);
    Timestamp { secs, nanos }
}

/// The time now, as the system clock reads it. Whatever the reading, the
/// nanoseconds are part of a second.
pub fn now() -> (out: Timestamp)
    ensures
        out.nanos < 1_000_000_000,
{
    timestamp_at(epoch_offset(system_now()))
}

/// The text of a point in time in the form of RFC 3339, where the calendar
/// of the formatter reaches it.
pub uninterp spec fn rfc3339_of(secs: i64, nanos: u32) -> Option<Seq<char>>;

/// `chrono::DateTime::from_timestamp`, shown by `DateTime::to_rfc3339`: the
/// text that `rfc3339_of` names, `None` where the seconds are out of the
/// calendar's range or the nanoseconds are no part of a second.
#[verifier::external_body]
pub(crate) fn rfc3339_text(secs: i64, nanos: u32) -> (out: Option<String>)
    ensures
        match out {
            Some(text) => rfc3339_of(secs, nanos) == Some(text@),
            None => rfc3339_of(secs, nanos) is None,
        },
{
    match chrono::DateTime::from_timestamp(secs, nanos) {
        Some(at) => Some(at.to_rfc3339()),
        None => None,
    }
}

/// The seconds of a point in time in decimal, with their sign.
pub open spec fn seconds_text(secs: i64) -> Seq<char> {
    if secs < 0 {
        seq!['-'] + decimal((-secs) as nat)
    } else {
        decimal(secs as nat)
    }
}

/// The text that stands for a point in time: its formatted text where
/// there is one, else its seconds.
pub open spec fn stamp_of(at: Timestamp, formatted: Option<Seq<char>>) -> Seq<char> {
    match formatted {
        Some(text) => text,
        None => seconds_text(at.secs),
    }
}

/// The text that stands for a point in time, given its formatted text.
pub fn stamp_text(at: Timestamp, formatted: Option<String>) -> (out: String)
    ensures
        out@ == stamp_of(
            at,
            match formatted {
                Some(text) => Some(text@),
                None => None,
            },
        ),
{
    match formatted {
        Some(text) => text,
        None => {
            let mut buf: Vec<char> = Vec::new();
            if at.secs < 0 {
                buf.push('-');
                let size: u64 = (-(at.secs as i128)) as u64;
                push_decimal(&mut buf, size);
            } else {
                push_decimal(&mut buf, at.secs as u64);
            }
            assert(buf@ =~= seconds_text(at.secs));
            text_of(&buf)
        },
    }
}

/// The text that stands for a point in time.
pub fn timestamp_text(at: Timestamp) -> (out: String)
    ensures
        out@ == stamp_of(at, rfc3339_of(at.secs, at.nanos)),
{
    stamp_text(at, rfc3339_text(at.secs, at.nanos))
}

} // verus!
