//! Where a day begins: the time zone and the hour at which reading of one
//! day ends and that of the next begins.

use vstd::prelude::*;
use vstd::arithmetic::div_mod::{lemma_fundamental_div_mod, lemma_fundamental_div_mod_converse};
use crate::text::{chars_of, is_digit};

verus! {

pub const SECONDS_PER_DAY: i64 = 86400;

pub const MINUTES_PER_DAY: u16 = 1440;

/// A change of a zone's offset from UTC, as at the beginning or the end of
/// summer time.
#[derive(Debug, Clone, Copy, PartialEq, Eq, Structural)]
pub struct OffsetChange {
    /// The instant from which the offset holds, in seconds since the epoch.
    pub at: i64,
    /// Seconds that local wall-clock time is ahead of UTC from then on.
    pub utc_offset_seconds: i32,
}

/// The zone and the start of the day by which sessions are attributed to
/// days. Both are given by the caller: nothing is read from the machine.
#[derive(Debug, Clone, PartialEq, Eq)]
pub struct TimeConfig {
    /// Seconds that local wall-clock time is ahead of UTC before the first
    /// change of offset.
    pub utc_offset_seconds: i32,
    /// The changes of the zone's offset, oldest first.
    pub offset_changes: Vec<OffsetChange>,
    /// Minutes after local midnight at which the logical day starts.
    pub day_start_minutes: u16,
}

/// The offset that holds at an instant: that of the last change at or before
/// it, or `base` before all changes.
pub open spec fn offset_in(changes: Seq<OffsetChange>, base: int, timestamp: int) -> int
    decreases changes.len(),
{
    if changes.len() == 0 {
        base
    } else if changes.last().at <= timestamp {
        changes.last().utc_offset_seconds as int
    } else {
        offset_in(changes.drop_last(), base, timestamp)
    }
}

/// What went wrong in a day start given as text.
#[derive(Debug, Clone, Copy, PartialEq, Eq, Structural)]
pub enum TimeConfigError {
    /// The text is not of the form `HH:MM`.
    Malformed,
    /// The hour is above 23 or the minute above 59.
    OutOfRange,
}

/// The local wall-clock time of an instant, in seconds since the epoch.
pub open spec fn local_seconds(timestamp: int, utc_offset_seconds: int) -> int {
    timestamp + utc_offset_seconds
}

/// The calendar day of a local time, counted from the epoch.
pub open spec fn calendar_day(local: int) -> int {
    local / 86400
}

/// The seconds since local midnight of a local time.
pub open spec fn second_of_day(local: int) -> int {
    local % 86400
}

/// The logical day of an instant: the calendar day of its local time moved
/// back by the start of the day.
pub open spec fn logical_day_of(timestamp: int, utc_offset_seconds: int, day_start_minutes: int) -> int {
    (local_seconds(timestamp, utc_offset_seconds) - day_start_minutes * 60) / 86400
}

/// A local time before the start of the day belongs to the previous calendar
/// day; any other belongs to its own.
pub proof fn lemma_day_boundary(timestamp: int, utc_offset_seconds: int, day_start_minutes: int)
    requires
        0 <= day_start_minutes < 1440,
    ensures
        ({
            let local = local_seconds(timestamp, utc_offset_seconds);
            logical_day_of(timestamp, utc_offset_seconds, day_start_minutes) == if second_of_day(
                local,
            ) < day_start_minutes * 60 {
                calendar_day(local) - 1
            } else {
                calendar_day(local)
            }
        }),
{
    let local = local_seconds(timestamp, utc_offset_seconds);
    let start = day_start_minutes * 60;
    let d = local / 86400;
    let s = local % 86400;
    lemma_fundamental_div_mod(local, 86400);
    assert(local == 86400 * d + s);
    if s < start {
        lemma_fundamental_div_mod_converse(local - start, 86400, d - 1, s - start + 86400);
    } else {
        lemma_fundamental_div_mod_converse(local - start, 86400, d, s - start);
    }
}

/// With the day starting at midnight, the logical day is the calendar day.
pub proof fn lemma_midnight_start(timestamp: int, utc_offset_seconds: int)
    ensures
        logical_day_of(timestamp, utc_offset_seconds, 0) == calendar_day(
            local_seconds(timestamp, utc_offset_seconds),
        ),
{
}

/// The minutes after midnight that a text `HH:MM` stands for.
pub open spec fn day_start_of(s: Seq<char>) -> Result<u16, TimeConfigError> {
    if s.len() != 5 || !is_digit(s[0]) || !is_digit(s[1]) || s[2] != ':' || !is_digit(s[3])
        || !is_digit(s[4]) {
        Err(TimeConfigError::Malformed)
    } else {
        let hour = (s[0] as int - 48) * 10 + (s[1] as int - 48);
        let minute = (s[3] as int - 48) * 10 + (s[4] as int - 48);
        if hour > 23 || minute > 59 {
            Err(TimeConfigError::OutOfRange)
        } else {
            Ok((hour * 60 + minute) as u16)
        }
    }
}

/// The value of a decimal digit.
fn digit_value(c: char) -> (r: Option<u16>)
    ensures
        r.is_some() == is_digit(c),
        r matches Some(d) ==> d as int == c as int - 48,
{
    if '0' <= c && c <= '9' {
        Some(((c as u8) - 48u8) as u16)
    } else {
        None
    }
}

/// Reads a day start given as `HH:MM`.
pub fn parse_day_start(s: &str) -> (r: Result<u16, TimeConfigError>)
    ensures
        r == day_start_of(s@),
        r matches Ok(m) ==> m < 1440,
{
    let v = chars_of(s);
    if v.len() != 5 || v[2] != ':' {
        return Err(TimeConfigError::Malformed);
    }
    match (digit_value(v[0]), digit_value(v[1]), digit_value(v[3]), digit_value(v[4])) {
        (Some(a), Some(b), Some(c), Some(d)) => {
            let hour: u16 = a * 10 + b;
            let minute: u16 = c * 10 + d;
            if hour > 23 || minute > 59 {
                Err(TimeConfigError::OutOfRange)
            } else {
                Ok(hour * 60 + minute)
            }
        },
        _ => Err(TimeConfigError::Malformed),
    }
}

impl TimeConfig {
    /// Whether the start of the day lies within a day.
    pub open spec fn wf(&self) -> bool {
        self.day_start_minutes < 1440
    }

    /// The offset from UTC that holds at an instant.
    pub open spec fn offset_at(&self, timestamp: int) -> int {
        offset_in(self.offset_changes@, self.utc_offset_seconds as int, timestamp)
    }

    /// A configuration for a zone of one fixed offset. A day start of a whole
    /// day or more is taken modulo the day.
    pub fn new(utc_offset_seconds: i32, day_start_minutes: u16) -> (r: TimeConfig)
        ensures
            r.wf(),
            r.utc_offset_seconds == utc_offset_seconds,
            r.offset_changes@.len() == 0,
            r.day_start_minutes == day_start_minutes % 1440,
            forall|t: int| r.offset_at(t) == utc_offset_seconds,
    {
        TimeConfig {
            utc_offset_seconds,
            offset_changes: Vec::new(),
            day_start_minutes: day_start_minutes % MINUTES_PER_DAY,
        }
    }

    /// The same configuration for a zone whose offset changes.
    pub fn with_changes(self, offset_changes: Vec<OffsetChange>) -> (r: TimeConfig)
        ensures
            r.utc_offset_seconds == self.utc_offset_seconds,
            r.offset_changes == offset_changes,
            r.day_start_minutes == self.day_start_minutes,
            r.wf() == self.wf(),
    {
        TimeConfig {
            utc_offset_seconds: self.utc_offset_seconds,
            offset_changes,
            day_start_minutes: self.day_start_minutes,
        }
    }

    /// The offset from UTC that holds at an instant.
    pub fn utc_offset_at(&self, timestamp: i64) -> (r: i32)
        ensures
            r as int == self.offset_at(timestamp as int),
    {
        let ghost all = self.offset_changes@;
        let mut i: usize = self.offset_changes.len();
        assert(all.take(i as int) =~= all);
        while i > 0
            invariant
                i <= self.offset_changes.len(),
                all == self.offset_changes@,
                self.offset_at(timestamp as int) == offset_in(
                    all.take(i as int),
                    self.utc_offset_seconds as int,
                    timestamp as int,
                ),
            decreases i,
        {
            i -= 1;
            proof {
                assert(all.take(i + 1).drop_last() =~= all.take(i as int));
                assert(all.take(i + 1).last() == all[i as int]);
            }
            if self.offset_changes[i].at <= timestamp {
                return self.offset_changes[i].utc_offset_seconds;
            }
        }
        self.utc_offset_seconds
    }

    /// A configuration from command-line values: the zone's offset, and the
    /// day start as `HH:MM`, midnight where none is given.
    pub fn from_cli(utc_offset_seconds: i32, day_start_time: &Option<String>) -> (r: Result<
        TimeConfig,
        TimeConfigError,
    >)
        ensures
            match *day_start_time {
                None => r.is_ok() && r.unwrap().day_start_minutes == 0,
                Some(t) => match day_start_of(t@) {
                    Ok(m) => r.is_ok() && r.unwrap().day_start_minutes == m,
                    Err(e) => r == Err::<TimeConfig, TimeConfigError>(e),
                },
            },
            r matches Ok(c) ==> c.wf() && c.utc_offset_seconds == utc_offset_seconds
                && c.offset_changes@.len() == 0,
    {
        match day_start_time {
            None => Ok(TimeConfig::new(utc_offset_seconds, 0)),
            Some(t) => match parse_day_start(t.as_str()) {
                Ok(m) => Ok(TimeConfig::new(utc_offset_seconds, m)),
                Err(e) => Err(e),
            },
        }
    }

    /// The logical day of an instant given in seconds since the epoch, as a
    /// number of days since the epoch.
    pub fn logical_day(&self, timestamp: i64) -> (r: i64)
        ensures
            r as int == logical_day_of(
                timestamp as int,
                self.offset_at(timestamp as int),
                self.day_start_minutes as int,
            ),
    {
        // A multiple of the day's length that lifts every shifted time above zero.
        let lift_days: i128 = 106751991300000;
        let shifted: i128 = timestamp as i128 + self.utc_offset_at(timestamp) as i128
            - (self.day_start_minutes as i128) * 60;
        let lifted: i128 = shifted + lift_days * 86400;
        assert(lifted >= 0);
        let q: i128 = lifted / 86400;
        proof {
            let d = (shifted as int) / 86400;
            let m = (shifted as int) % 86400;
            lemma_fundamental_div_mod(shifted as int, 86400);
            lemma_fundamental_div_mod_converse(lifted as int, 86400, d + lift_days, m);
        }
        (q - lift_days) as i64
    }
}

} // verus!
