use vstd::prelude::*;

verus! {

/// Seconds between the Unix epoch and the archive format's epoch.
pub const DOS_EPOCH_OFFSET_SECONDS: u64 = 315576000;

/// Seconds in an average year of 365.2425 days (86400 * 365.2425).
pub const SECONDS_PER_AVERAGE_YEAR: u64 = 31556952;

/// An archive timestamp, decomposed into the fields the archive format
/// stores. The derivation is deliberately lossy: the year comes from
/// average-year arithmetic and the day and month are fixed placeholders.
#[derive(PartialEq, Eq, Structural, Clone, Copy, Debug)]
pub struct ZipTimestamp {
    pub year: u16,
    pub month: u8,
    pub day: u8,
    pub hour: u8,
    pub minute: u8,
    pub second: u8,
}

/// The archive format's zero timestamp, used when the composed value is
/// not representable.
pub open spec fn spec_default_stamp() -> ZipTimestamp {
    ZipTimestamp { year: 1980, month: 1, day: 1, hour: 0, minute: 0, second: 0 }
}

/// The fields the archive format can represent, restricted to the shapes
/// this estimator produces (day and month are always the placeholder 1).
pub open spec fn spec_stamp_valid(t: ZipTimestamp) -> bool {
    &&& 1980 <= t.year <= 2107
    &&& t.month == 1
    &&& t.day == 1
    &&& t.hour < 24
    &&& t.minute < 60
    &&& t.second < 60
}

/// The estimated timestamp for a path whose modification time is `secs`
/// seconds after the Unix epoch: seconds elapsed since the archive epoch
/// (clamped to zero when the time predates it), an approximate year from
/// average-year arithmetic, placeholder day and month, and exact
/// hour/minute/second by modular arithmetic; the zero timestamp when the
/// year is not representable.
pub open spec fn spec_stamp_from_unix(secs: u64) -> ZipTimestamp {
    let e: int = if secs >= DOS_EPOCH_OFFSET_SECONDS {
        secs - DOS_EPOCH_OFFSET_SECONDS
    } else {
        0
    };
    let years: int = e / (SECONDS_PER_AVERAGE_YEAR as int);
    if years <= 127 {
        ZipTimestamp {
            year: (1980 + years) as u16,
            month: 1,
            day: 1,
            hour: ((e / 3600) % 24) as u8,
            minute: ((e / 60) % 60) as u8,
            second: (e % 60) as u8,
        }
    } else {
        spec_default_stamp()
    }
}

/// The timestamp as the archive format stores it: DOS time keeps the
/// second in five bits at two-second resolution and cannot hold 59 or 60,
/// so the stored second is capped at 58 and floored to the nearest even
/// number; the other fields are kept as given.
pub open spec fn spec_dos_stamp(t: ZipTimestamp) -> ZipTimestamp {
    let capped: int = if t.second <= 58 {
        t.second as int
    } else {
        58
    };
    ZipTimestamp {
        year: t.year,
        month: t.month,
        day: t.day,
        hour: t.hour,
        minute: t.minute,
        second: (capped - capped % 2) as u8,
    }
}

/// The timestamp recorded for an entry: estimated from the modification
/// time when one is known, and otherwise from `now`, the current time
/// supplied by the caller.
pub open spec fn spec_last_modified(mtime: Option<u64>, now: u64) -> ZipTimestamp {
    match mtime {
        Option::Some(secs) => spec_stamp_from_unix(secs),
        Option::None => spec_stamp_from_unix(now),
    }
}

/// Every recorded timestamp lies in the representable range.
pub proof fn lemma_last_modified_valid(mtime: Option<u64>, now: u64)
    ensures
        spec_stamp_valid(spec_last_modified(mtime, now)),
{
}

/// The zero timestamp of the archive format.
pub fn default_stamp() -> (t: ZipTimestamp)
    ensures
        t == spec_default_stamp(),
{
    ZipTimestamp { year: 1980, month: 1, day: 1, hour: 0, minute: 0, second: 0 }
}

/// Estimates the archive timestamp for a modification time given in
/// seconds after the Unix epoch.
pub fn stamp_from_unix(secs: u64) -> (t: ZipTimestamp)
    ensures
        t == spec_stamp_from_unix(secs),
{
    let e: u64 = if secs >= DOS_EPOCH_OFFSET_SECONDS {
        secs - DOS_EPOCH_OFFSET_SECONDS
    } else {
        0
    };
    let years: u64 = e / SECONDS_PER_AVERAGE_YEAR;
    if years <= 127 {
        ZipTimestamp {
            year: 1980 + (years as u16),
            month: 1,
            day: 1,
            hour: ((e / 3600) % 24) as u8,
            minute: ((e / 60) % 60) as u8,
            second: (e % 60) as u8,
        }
    } else {
        default_stamp()
    }
}

/// Returns an optimistic estimation as to the last modified time for an
/// entry: from its modification time when known, else from `now`.
pub fn to_last_modified_time(mtime: &Option<u64>, now: u64) -> (t: ZipTimestamp)
    ensures
        t == spec_last_modified(*mtime, now),
{
    match mtime {
        Option::Some(secs) => stamp_from_unix(*secs),
        Option::None => stamp_from_unix(now),
    }
}

} // verus!
