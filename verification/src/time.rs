//! Civil-time-to-instant reconciliation under the fixed zone
//! America/Los_Angeles, with explicit handling of daylight-saving
//! ambiguity (a local time that occurs twice) and gaps (a local time
//! that never occurs).

use chrono::Offset as _;
use vstd::prelude::*;

verus! {

/// A calendar date with no attached zone.
#[derive(Clone, Copy, PartialEq, Eq, Structural, Debug)]
pub struct CivilDate {
    pub year: u32,
    pub month: u32,
    pub day: u32,
}

/// A time of day with no attached zone.
#[derive(Clone, Copy, PartialEq, Eq, Structural, Debug)]
pub struct CivilTime {
    pub hour: u32,
    pub minute: u32,
    pub second: u32,
}

pub open spec fn is_leap_year(y: int) -> bool {
    (y % 4 == 0 && y % 100 != 0) || y % 400 == 0
}

pub open spec fn days_in_month(y: int, m: int) -> int {
    if m == 2 {
        if is_leap_year(y) {
            29
        } else {
            28
        }
    } else if m == 4 || m == 6 || m == 9 || m == 11 {
        30
    } else {
        31
    }
}

impl CivilDate {
    pub open spec fn valid(self) -> bool {
        1 <= self.year <= 9999 && 1 <= self.month <= 12 && 1 <= self.day
            <= days_in_month(self.year as int, self.month as int)
    }
}

impl CivilTime {
    pub open spec fn valid(self) -> bool {
        self.hour <= 23 && self.minute <= 59 && self.second <= 59
    }
}

/// Days since 1970-01-01 of a proleptic-Gregorian civil date
/// (the standard era-based day count).
pub open spec fn days_from_civil(y: int, m: int, d: int) -> int {
    let ya = if m <= 2 {
        y - 1
    } else {
        y
    };
    let era = ya / 400;
    let yoe = ya - era * 400;
    let mp = if m > 2 {
        m - 3
    } else {
        m + 9
    };
    let doy = (153 * mp + 2) / 5 + d - 1;
    let doe = yoe * 365 + yoe / 4 - yoe / 100 + doy;
    era * 146097 + doe - 719468
}

/// The civil moment as seconds since the epoch, read as if the zone
/// offset were zero: the canonical integer encoding of a (date, time)
/// pair that the zone mapping below is keyed by.
pub open spec fn civil_secs(d: CivilDate, t: CivilTime) -> int {
    days_from_civil(d.year as int, d.month as int, d.day as int) * 86400 + t.hour * 3600
        + t.minute * 60 + t.second
}

/// How a zone database maps one civil moment onto the UTC timeline:
/// to one instant, to two (a fall-back fold, earlier listed first), or
/// to none (a spring-forward gap). Instants are seconds since the epoch;
/// each is paired with the zone offset (local minus UTC) in force at it.
#[derive(Clone, Copy, PartialEq, Eq, Structural, Debug)]
pub enum ZoneMapping {
    Unique { utc: i64, offset: i64 },
    Ambiguous { first_utc: i64, first_offset: i64, second_utc: i64, second_offset: i64 },
    Gap,
}

/// The mapping that the America/Los_Angeles zone rules assign to the civil
/// moment encoded as `civil` (see [`civil_secs`]). The zone database is
/// compiled into the zone library, so the mapping is a fixed function of
/// the civil moment alone.
pub uninterp spec fn pacific_mapping(civil: int) -> ZoneMapping;

/// What holds of every mapping the zone lookup can return for a civil
/// moment: each returned instant, shifted by its offset, reads back as
/// that civil moment, and an ambiguous pair is ordered earlier-first.
pub open spec fn mapping_consistent(m: ZoneMapping, civil: int) -> bool {
    match m {
        ZoneMapping::Unique { utc, offset } => utc + offset == civil,
        ZoneMapping::Ambiguous { first_utc, first_offset, second_utc, second_offset } => first_utc
            + first_offset == civil && second_utc + second_offset == civil && first_utc
            < second_utc,
        ZoneMapping::Gap => true,
    }
}

/// Relies on chrono's `NaiveDateTime::and_local_timezone` with
/// `chrono_tz::US::Pacific`: it returns `Single` / `Ambiguous` (earliest
/// first) / `None` as the zone rules map the civil moment to one, two or
/// no instants, and each returned instant is the civil moment minus the
/// offset in force at it, so instant plus offset reads back as the civil
/// moment. `timestamp` is that instant as seconds since the epoch.
#[verifier::external_body]
fn pacific_lookup(date: CivilDate, time: CivilTime) -> (r: ZoneMapping)
    requires
        date.valid(),
        time.valid(),
    ensures
        r == pacific_mapping(civil_secs(date, time)),
        mapping_consistent(r, civil_secs(date, time)),
{
    let nd = chrono::NaiveDate::from_ymd_opt(date.year as i32, date.month, date.day).unwrap();
    let nt = chrono::NaiveTime::from_hms_opt(time.hour, time.minute, time.second).unwrap();
    match chrono::NaiveDateTime::new(nd, nt).and_local_timezone(chrono_tz::US::Pacific) {
        chrono::LocalResult::Single(d) => ZoneMapping::Unique {
            utc: d.timestamp(), offset: d.offset().fix().local_minus_utc() as i64 },
        chrono::LocalResult::Ambiguous(a, b) => ZoneMapping::Ambiguous {
            first_utc: a.timestamp(), first_offset: a.offset().fix().local_minus_utc() as i64,
            second_utc: b.timestamp(), second_offset: b.offset().fix().local_minus_utc() as i64 },
        chrono::LocalResult::None => ZoneMapping::Gap,
    }
}

/// Failure of civil-time resolution: the text did not parse as a date or
/// time, or the civil moment falls in a spring-forward gap.
#[derive(Clone, Copy, PartialEq, Eq, Structural, Debug)]
pub enum TimeError {
    MalformedTimestamp,
    InvalidLocalTime,
}

/// A UTC instant paired with its zoned local representation in the fixed
/// zone: the local civil fields and the offset (local minus UTC) in force.
/// Created only by resolution, which establishes `wf`.
#[derive(Clone, Copy, PartialEq, Eq, Structural, Debug)]
pub struct ResolvedInstant {
    pub utc_secs: i64,
    pub offset_secs: i64,
    pub date: CivilDate,
    pub time: CivilTime,
}

impl ResolvedInstant {
    /// The instant and its local representation agree: the UTC instant
    /// shifted by the offset is exactly the stored local civil moment.
    pub open spec fn wf(self) -> bool {
        self.date.valid() && self.time.valid() && self.utc_secs + self.offset_secs == civil_secs(
            self.date,
            self.time,
        )
    }

    /// The UTC instant at nanosecond resolution.
    pub fn timestamp_nanos(&self) -> (r: i128)
        ensures
            r == self.utc_secs * 1_000_000_000,
    {
        self.utc_secs as i128 * 1_000_000_000
    }
}

/// What resolution returns for a civil moment: the unique instant where
/// the mapping is unique, the earlier of the two during a fall-back fold,
/// and `InvalidLocalTime` in a spring-forward gap — never a substitute.
pub open spec fn resolve_spec(d: CivilDate, t: CivilTime) -> Result<ResolvedInstant, TimeError> {
    match pacific_mapping(civil_secs(d, t)) {
        ZoneMapping::Unique { utc, offset } => Ok(
            ResolvedInstant { utc_secs: utc, offset_secs: offset, date: d, time: t },
        ),
        ZoneMapping::Ambiguous { first_utc, first_offset, .. } => Ok(
            ResolvedInstant { utc_secs: first_utc, offset_secs: first_offset, date: d, time: t },
        ),
        ZoneMapping::Gap => Err(TimeError::InvalidLocalTime),
    }
}

/// Resolve a civil (date, time) pair in the fixed zone. Pure: the result
/// is a function of the civil moment alone. Never panics; a nonexistent
/// local time is reported as `InvalidLocalTime`.
pub fn resolve(date: CivilDate, time: CivilTime) -> (r: Result<ResolvedInstant, TimeError>)
    requires
        date.valid(),
        time.valid(),
    ensures
        r == resolve_spec(date, time),
        r matches Ok(ri) ==> ri.wf(),
        mapping_consistent(pacific_mapping(civil_secs(date, time)), civil_secs(date, time)),
{
    match pacific_lookup(date, time) {
        ZoneMapping::Unique { utc, offset } => Ok(
            ResolvedInstant { utc_secs: utc, offset_secs: offset, date, time },
        ),
        ZoneMapping::Ambiguous { first_utc, first_offset, .. } => Ok(
            ResolvedInstant { utc_secs: first_utc, offset_secs: first_offset, date, time },
        ),
        ZoneMapping::Gap => Err(TimeError::InvalidLocalTime),
    }
}

/// Resolve a civil date at midnight local time.
pub fn resolve_date_only(date: CivilDate) -> (r: Result<ResolvedInstant, TimeError>)
    requires
        date.valid(),
    ensures
        r == resolve_spec(date, CivilTime { hour: 0, minute: 0, second: 0 }),
        r matches Ok(ri) ==> ri.wf(),
{
    resolve(date, CivilTime { hour: 0, minute: 0, second: 0 })
}

/// Round-trip law: outside a transition window — where the zone maps the
/// civil moment to a single instant — resolving and then reading the zoned
/// local representation back gives exactly the civil moment that was asked
/// for.
pub proof fn lemma_resolve_round_trip(d: CivilDate, t: CivilTime)
    requires
        d.valid(),
        t.valid(),
        pacific_mapping(civil_secs(d, t)) is Unique,
    ensures
        resolve_spec(d, t) matches Ok(ri) && ri.date == d && ri.time == t,
{
}

/// Fall-back law: when the zone maps the civil moment to two instants
/// (an ambiguous local time), resolution returns the earlier of the two.
pub proof fn lemma_resolve_prefers_earlier(d: CivilDate, t: CivilTime)
    requires
        d.valid(),
        t.valid(),
        pacific_mapping(civil_secs(d, t)) is Ambiguous,
        mapping_consistent(pacific_mapping(civil_secs(d, t)), civil_secs(d, t)),
    ensures
        pacific_mapping(civil_secs(d, t)) matches ZoneMapping::Ambiguous {
            first_utc,
            second_utc,
            ..
        } ==> (resolve_spec(d, t) matches Ok(ri) && ri.utc_secs == first_utc && first_utc
            < second_utc),
{
}

/// Gap law: when the zone maps the civil moment to no instant (a
/// spring-forward gap), resolution fails with `InvalidLocalTime`; no
/// nearby instant is substituted.
pub proof fn lemma_resolve_gap_fails(d: CivilDate, t: CivilTime)
    requires
        d.valid(),
        t.valid(),
        pacific_mapping(civil_secs(d, t)) is Gap,
    ensures
        resolve_spec(d, t) == Err::<ResolvedInstant, TimeError>(TimeError::InvalidLocalTime),
{
}

} // verus!
