//! The instant of a file's last modification, as plain numbers.

use vstd::prelude::*;
use chrono::NaiveDateTime;

verus! {

/// `chrono::NaiveDateTime`: a calendar date and time of day without a time
/// zone. The library reads one as a date in UTC and looks at it through
/// `epoch_seconds_of` and `subsec_nanos_of` only.
#[verifier::external_type_specification]
#[verifier::external_body]
pub struct ExNaiveDateTime(NaiveDateTime);

/// An instant in UTC: whole seconds since 1970-01-01 00:00:00, and the
/// nanoseconds since that second began. Instants are ordered by `secs`, then
/// by `nanos`.
#[derive(Debug, Clone, Copy, PartialEq, Eq, Structural)]
pub struct Timestamp {
    pub secs: i64,
    pub nanos: u32,
}

/// The whole seconds from 1970-01-01 00:00:00 UTC to the date, the date
/// read as UTC, as `DateTime::timestamp` of chrono counts them: leap seconds
/// are not counted, and a date before 1970 gives a negative number.
pub uninterp spec fn epoch_seconds_of(date: NaiveDateTime) -> i64;

/// The nanoseconds from the last whole second to the date, as
/// `DateTime::timestamp_subsec_nanos` of chrono gives them: 1,000,000,000
/// and more within a leap second.
pub uninterp spec fn subsec_nanos_of(date: NaiveDateTime) -> u32;

/// `DateTime::timestamp` of chrono, on the date read as UTC. Trusted: the
/// call returns, and its result depends on the date alone.
#[verifier::external_body]
fn epoch_seconds(date: &NaiveDateTime) -> (r: i64)
    ensures
        r == epoch_seconds_of(*date),
{
    date.and_utc().timestamp()
}

/// `DateTime::timestamp_subsec_nanos` of chrono, on the date read as UTC.
/// Trusted: the call returns, and its result depends on the date alone.
#[verifier::external_body]
fn subsec_nanos(date: &NaiveDateTime) -> (r: u32)
    ensures
        r == subsec_nanos_of(*date),
{
    date.and_utc().timestamp_subsec_nanos()
}

impl Timestamp {
    /// `self` is not later than `other`.
    pub open spec fn at_most(self, other: Timestamp) -> bool {
        self.secs < other.secs || (self.secs == other.secs && self.nanos <= other.nanos)
    }

    /// Whether `self` is not later than `other`.
    pub fn is_at_most(&self, other: &Timestamp) -> (r: bool)
        ensures
            r == self.at_most(*other),
    {
        self.secs < other.secs || (self.secs == other.secs && self.nanos <= other.nanos)
    }

    /// The instant that a chrono date holds, the date read as UTC: its
    /// seconds since the epoch and its nanoseconds within the second.
    pub fn from_naive_utc(date: &NaiveDateTime) -> (r: Timestamp)
        ensures
            r.secs == epoch_seconds_of(*date),
            r.nanos == subsec_nanos_of(*date),
    {
        Timestamp { secs: epoch_seconds(date), nanos: subsec_nanos(date) }
    }
}

} // verus!
