//! Instants counted in whole seconds since the UNIX epoch.

use vstd::prelude::*;
use crate::defs::{ErrorV, ParseError};

verus! {

/// The PostgreSQL epoch (2000-01-01 UTC), in seconds since the UNIX epoch.
pub const POSTGRES_EPOCH_SECS: i64 = 946684800;

/// An instant, counted in whole seconds since the UNIX epoch.
#[derive(Clone, Copy, PartialEq, Eq, Structural, Hash, PartialOrd, Ord, Debug)]
pub struct Time(pub i64);

/// What `DateTime::parse_from_rfc3339` makes of a string: the parsed
/// instant as whole seconds since the UNIX epoch, or `None` where the
/// string is not a well-formed RFC 3339 date-time.
pub uninterp spec fn rfc3339_secs(s: Seq<char>) -> Option<i64>;

/// The RFC 3339 rendering, in UTC, that `DateTime::to_rfc3339` gives to an
/// instant of whole seconds since the UNIX epoch (empty where the instant
/// is outside chrono's representable range).
pub uninterp spec fn rfc3339_of(secs: i64) -> Seq<char>;

/// What `NaiveDateTime::parse_from_str` makes of a string under the two
/// timestamp patterns the replication stream uses: with a time-zone suffix
/// where `with_tz` holds, without one otherwise.
pub uninterp spec fn pg_text_secs(s: Seq<char>, with_tz: bool) -> Option<i64>;

/// Relies on chrono's `DateTime::<FixedOffset>::parse_from_rfc3339`, whose
/// result depends on the input characters alone; `timestamp` converts the
/// parsed instant to whole seconds since the UNIX epoch.
#[verifier::external_body]
fn parse_rfc3339_secs(s: &str) -> (r: Option<i64>)
    ensures
        r == rfc3339_secs(s@),
{
    match chrono::DateTime::<chrono::FixedOffset>::parse_from_rfc3339(s) {
        Ok(dt) => Some(dt.timestamp()),
        Err(_) => None,
    }
}

/// Relies on chrono's `DateTime::<Utc>::to_rfc3339`, whose result depends on
/// the instant alone; `DateTime::from_timestamp` builds the instant from
/// whole seconds and returns `None` only outside chrono's representable
/// range, in which case the empty string stands in.
#[verifier::external_body]
fn format_rfc3339(secs: i64) -> (r: String)
    ensures
        r@ == rfc3339_of(secs),
{
    match chrono::DateTime::<chrono::Utc>::from_timestamp(secs, 0) {
        Some(dt) => dt.to_rfc3339(),
        None => String::new(),
    }
}

/// Relies on chrono's `NaiveDateTime::parse_from_str` with one of two fixed
/// patterns, whose result depends on the input characters and the chosen
/// pattern alone; `and_utc().timestamp()` converts the parsed date-time to
/// whole seconds since the UNIX epoch.
#[verifier::external_body]
pub(crate) fn parse_pg_text_secs(s: &str, with_tz: bool) -> (r: Option<i64>)
    ensures
        r == pg_text_secs(s@, with_tz),
{
    let pattern = if with_tz { "%Y-%m-%d %H:%M:%S%.f%#z" } else { "%Y-%m-%d %H:%M:%S%.f" };
    match chrono::NaiveDateTime::parse_from_str(s, pattern) {
        Ok(dt) => Some(dt.and_utc().timestamp()),
        Err(_) => None,
    }
}

/// Relies on std's `SystemTime::now`: the wall clock, of which nothing is
/// promised; a clock reading before the Unix epoch answers zero rather
/// than aborting.
#[verifier::external_body]
fn now_secs() -> i64 {
    match std::time::SystemTime::now().duration_since(std::time::UNIX_EPOCH) {
        Ok(elapsed) => elapsed.as_secs() as i64,
        Err(_) => 0,
    }
}

/// Truncating division of a microsecond count by one million, as the `/`
/// operator of the host language rounds: toward zero.
pub open spec fn trunc_div_million(us: i64) -> int {
    if us >= 0 {
        (us as int) / 1000000
    } else {
        -((-(us as int)) / 1000000)
    }
}

impl Time {
    /// The current wall-clock time.
    pub fn now() -> Self {
        Time(now_secs())
    }

    /// Parses an RFC 3339 date-time string.
    pub fn from_string(s: &str) -> (r: Result<Self, ParseError>)
        ensures
            match rfc3339_secs(s@) {
                Some(secs) => r == Ok::<Time, ParseError>(Time(secs)),
                None => r == Err::<Time, ParseError>(ParseError::ChronoParseError),
            },
    {
        match parse_rfc3339_secs(s) {
            Some(secs) => Ok(Time(secs)),
            None => Err(ParseError::ChronoParseError),
        }
    }

    /// Wraps a seconds-since-epoch count.
    pub fn from_timestamp(timestamp: i64) -> (r: Self)
        ensures
            r.0 == timestamp,
    {
        Time(timestamp)
    }

    /// The seconds-since-epoch count.
    pub fn timestamp(&self) -> (r: i64)
        ensures
            r == self.0,
    {
        self.0
    }

    /// The instant a microsecond count since the PostgreSQL epoch
    /// (2000-01-01 UTC) denotes, at second precision.
    pub fn from_microseconds_since_postgres_epoch(us: i64) -> (r: Self)
        ensures
            r.0 == POSTGRES_EPOCH_SECS + trunc_div_million(us),
    {
        if us >= 0 {
            let q: i64 = ((us as u64) / 1000000u64) as i64;
            Time(POSTGRES_EPOCH_SECS + q)
        } else {
            let magnitude: u64 = ((-(us + 1)) as u64) + 1;
            let q: i64 = (magnitude / 1000000u64) as i64;
            Time(POSTGRES_EPOCH_SECS - q)
        }
    }

    /// The sum of two instants' second counts.
    pub fn plus(self, rhs: Time) -> (r: Time)
        requires
            i64::MIN <= self.0 + rhs.0 <= i64::MAX,
        ensures
            r.0 == self.0 + rhs.0,
    {
        Time(self.0 + rhs.0)
    }

    /// This instant shifted by a raw second count.
    pub fn plus_seconds(self, rhs: i64) -> (r: Time)
        requires
            i64::MIN <= self.0 + rhs <= i64::MAX,
        ensures
            r.0 == self.0 + rhs,
    {
        Time(self.0 + rhs)
    }

    /// The RFC 3339 rendering of this instant in UTC.
    pub fn to_string(&self) -> (r: String)
        ensures
            r@ == rfc3339_of(self.0),
    {
        format_rfc3339(self.0)
    }
}

} // verus!
