//! Turning one delimited log line into a structured ingestion record.
//!
//! A line holds exactly five semicolon-separated fields in fixed order:
//! civil date (`YYYY-MM-DD`), civil time (`HH:MM:SS`), scientific name,
//! common name, confidence (a plain decimal number). The civil date and
//! time are handed to the resolver; its failure is propagated as-is.

use vstd::prelude::*;

use crate::text::{digit_val, is_digit};
use crate::time::{CivilDate, CivilTime, ResolvedInstant, TimeError, resolve, resolve_spec};

verus! {

/// The civil date written in a `YYYY-MM-DD` field.
pub open spec fn date_of_text(s: Seq<char>) -> CivilDate {
    CivilDate {
        year: (digit_val(s[0]) * 1000 + digit_val(s[1]) * 100 + digit_val(s[2]) * 10 + digit_val(
            s[3],
        )) as u32,
        month: (digit_val(s[5]) * 10 + digit_val(s[6])) as u32,
        day: (digit_val(s[8]) * 10 + digit_val(s[9])) as u32,
    }
}

/// A well-formed `YYYY-MM-DD` date field: the shape is exact and the
/// named date exists in the calendar.
pub open spec fn is_date_text(s: Seq<char>) -> bool {
    &&& s.len() == 10
    &&& is_digit(s[0])
    &&& is_digit(s[1])
    &&& is_digit(s[2])
    &&& is_digit(s[3])
    &&& s[4] == '-'
    &&& is_digit(s[5])
    &&& is_digit(s[6])
    &&& s[7] == '-'
    &&& is_digit(s[8])
    &&& is_digit(s[9])
    &&& date_of_text(s).valid()
}

/// The time of day written in a `HH:MM:SS` field.
pub open spec fn time_of_text(s: Seq<char>) -> CivilTime {
    CivilTime {
        hour: (digit_val(s[0]) * 10 + digit_val(s[1])) as u32,
        minute: (digit_val(s[3]) * 10 + digit_val(s[4])) as u32,
        second: (digit_val(s[6]) * 10 + digit_val(s[7])) as u32,
    }
}

/// A well-formed 24-hour `HH:MM:SS` time field.
pub open spec fn is_time_text(s: Seq<char>) -> bool {
    &&& s.len() == 8
    &&& is_digit(s[0])
    &&& is_digit(s[1])
    &&& s[2] == ':'
    &&& is_digit(s[3])
    &&& is_digit(s[4])
    &&& s[5] == ':'
    &&& is_digit(s[6])
    &&& is_digit(s[7])
    &&& time_of_text(s).valid()
}

fn digit_of(c: char) -> (r: Option<u32>)
    ensures
        r is Some <==> is_digit(c),
        r matches Some(v) ==> v == digit_val(c) && v < 10,
{
    let u = c as u32;
    if 48 <= u && u <= 57 {
        Some(u - 48)
    } else {
        None
    }
}

/// Number of days in a calendar month.
pub fn days_in_month_of(year: u32, month: u32) -> (r: u32)
    requires
        1 <= month <= 12,
    ensures
        r == crate::time::days_in_month(year as int, month as int),
{
    if month == 2 {
        if (year % 4 == 0 && year % 100 != 0) || year % 400 == 0 {
            29
        } else {
            28
        }
    } else if month == 4 || month == 6 || month == 9 || month == 11 {
        30
    } else {
        31
    }
}

/// Parse a `YYYY-MM-DD` date field. Returns the date exactly when the
/// field is well formed and names an existing calendar day.
pub fn parse_date(s: &str) -> (r: Option<CivilDate>)
    ensures
        r is Some <==> is_date_text(s@),
        r matches Some(d) ==> d == date_of_text(s@) && d.valid(),
{
    if s.unicode_len() != 10 {
        return None;
    }
    let y0 = digit_of(s.get_char(0));
    let y1 = digit_of(s.get_char(1));
    let y2 = digit_of(s.get_char(2));
    let y3 = digit_of(s.get_char(3));
    let m0 = digit_of(s.get_char(5));
    let m1 = digit_of(s.get_char(6));
    let d0 = digit_of(s.get_char(8));
    let d1 = digit_of(s.get_char(9));
    if s.get_char(4) != '-' || s.get_char(7) != '-' {
        return None;
    }
    match (y0, y1, y2, y3, m0, m1, d0, d1) {
        (
            Some(y0),
            Some(y1),
            Some(y2),
            Some(y3),
            Some(m0),
            Some(m1),
            Some(d0),
            Some(d1),
        ) => {
            let year = y0 * 1000 + y1 * 100 + y2 * 10 + y3;
            let month = m0 * 10 + m1;
            let day = d0 * 10 + d1;
            if year < 1 || month < 1 || month > 12 || day < 1 || day > days_in_month_of(
                year,
                month,
            ) {
                return None;
            }
            Some(CivilDate { year, month, day })
        },
        _ => None,
    }
}

/// Parse a `HH:MM:SS` time field. Returns the time exactly when the field
/// is well formed and in 24-hour range.
pub fn parse_time(s: &str) -> (r: Option<CivilTime>)
    ensures
        r is Some <==> is_time_text(s@),
        r matches Some(t) ==> t == time_of_text(s@) && t.valid(),
{
    if s.unicode_len() != 8 {
        return None;
    }
    let h0 = digit_of(s.get_char(0));
    let h1 = digit_of(s.get_char(1));
    let m0 = digit_of(s.get_char(3));
    let m1 = digit_of(s.get_char(4));
    let s0 = digit_of(s.get_char(6));
    let s1 = digit_of(s.get_char(7));
    if s.get_char(2) != ':' || s.get_char(5) != ':' {
        return None;
    }
    match (h0, h1, m0, m1, s0, s1) {
        (Some(h0), Some(h1), Some(m0), Some(m1), Some(s0), Some(s1)) => {
            let hour = h0 * 10 + h1;
            let minute = m0 * 10 + m1;
            let second = s0 * 10 + s1;
            if hour > 23 || minute > 59 || second > 59 {
                return None;
            }
            Some(CivilTime { hour, minute, second })
        },
        _ => None,
    }
}

pub open spec fn all_digits(s: Seq<char>) -> bool {
    forall|i: int| 0 <= i < s.len() ==> is_digit(s[i])
}

/// A well-formed confidence field: a plain decimal number, one or more
/// digits with at most one interior decimal point. The value itself is
/// not otherwise validated and is carried through as text.
pub open spec fn is_confidence_text(s: Seq<char>) -> bool {
    (s.len() > 0 && all_digits(s)) || (exists|j: int|
        0 < j && j + 1 < s.len() && s[j] == '.' && all_digits(s.subrange(0, j)) && all_digits(
            s.subrange(j + 1, s.len() as int),
        ))
}

/// Decide whether a field is a well-formed confidence number.
pub fn check_confidence(s: &str) -> (r: bool)
    ensures
        r == is_confidence_text(s@),
{
    let ghost sv = s@;
    let n = s.unicode_len();
    if n == 0 {
        return false;
    }
    let mut i: usize = 0;
    let mut dot: Option<usize> = None;
    while i < n
        invariant
            0 <= i <= n,
            n == sv.len(),
            s@ == sv,
            dot matches Some(j) ==> 0 < j < i && sv[j as int] == '.' && (forall|k: int|
                0 <= k < i && k != j ==> is_digit(sv[k])),
            dot is None ==> (forall|k: int| 0 <= k < i ==> is_digit(sv[k])),
        decreases n - i,
    {
        let c = s.get_char(i);
        if c == '.' {
            if i == 0 {
                proof {
                    assert(!all_digits(sv));
                    assert forall|j: int|
                        !(0 < j && j + 1 < sv.len() && sv[j] == '.' && all_digits(
                            sv.subrange(0, j),
                        ) && all_digits(sv.subrange(j + 1, sv.len() as int))) by {
                        if 0 < j && j + 1 < sv.len() && all_digits(sv.subrange(0, j)) {
                            assert(sv.subrange(0, j)[0] == sv[0]);
                        }
                    }
                }
                return false;
            }
            match dot {
                Some(j0) => {
                    proof {
                        assert(!all_digits(sv)) by {
                            assert(!is_digit(sv[j0 as int]));
                        }
                        assert forall|j: int|
                            !(0 < j && j + 1 < sv.len() && sv[j] == '.' && all_digits(
                                sv.subrange(0, j),
                            ) && all_digits(sv.subrange(j + 1, sv.len() as int))) by {
                            if 0 < j && j + 1 < sv.len() && sv[j] == '.' && all_digits(
                                sv.subrange(0, j),
                            ) && all_digits(sv.subrange(j + 1, sv.len() as int)) {
                                if j0 < j {
                                    assert(sv.subrange(0, j)[j0 as int] == sv[j0 as int]);
                                } else if j0 > j {
                                    assert(sv.subrange(j + 1, sv.len() as int)[j0 - j - 1]
                                        == sv[j0 as int]);
                                } else {
                                    assert(sv.subrange(j + 1, sv.len() as int)[i - j - 1]
                                        == sv[i as int]);
                                }
                            }
                        }
                    }
                    return false;
                },
                None => {
                    dot = Some(i);
                },
            }
        } else {
            if digit_of(c).is_none() {
                proof {
                    assert(!all_digits(sv)) by {
                        assert(!is_digit(sv[i as int]));
                    }
                    assert forall|j: int|
                        !(0 < j && j + 1 < sv.len() && sv[j] == '.' && all_digits(
                            sv.subrange(0, j),
                        ) && all_digits(sv.subrange(j + 1, sv.len() as int))) by {
                        if 0 < j && j + 1 < sv.len() && sv[j] == '.' && all_digits(
                            sv.subrange(0, j),
                        ) && all_digits(sv.subrange(j + 1, sv.len() as int)) {
                            if (i as int) < j {
                                assert(sv.subrange(0, j)[i as int] == sv[i as int]);
                            } else if (i as int) > j {
                                assert(sv.subrange(j + 1, sv.len() as int)[i - j - 1]
                                    == sv[i as int]);
                            }
                        }
                    }
                }
                return false;
            }
        }
        i += 1;
    }
    match dot {
        None => true,
        Some(j0) => {
            if j0 + 1 < n {
                proof {
                    assert(all_digits(sv.subrange(0, j0 as int))) by {
                        assert forall|k: int| 0 <= k < j0 implies is_digit(
                            sv.subrange(0, j0 as int)[k],
                        ) by {
                            assert(sv.subrange(0, j0 as int)[k] == sv[k]);
                        }
                    }
                    assert(all_digits(sv.subrange(j0 + 1, sv.len() as int))) by {
                        assert forall|k: int| 0 <= k < sv.len() - j0 - 1 implies #[trigger]
                        is_digit(sv.subrange(j0 + 1, sv.len() as int)[k]) by {
                            assert(sv.subrange(j0 + 1, sv.len() as int)[k] == sv[k + j0 + 1]);
                        }
                    }
                }
                true
            } else {
                proof {
                    assert(!all_digits(sv)) by {
                        assert(!is_digit(sv[j0 as int]));
                    }
                    assert forall|j: int|
                        !(0 < j && j + 1 < sv.len() && sv[j] == '.' && all_digits(
                            sv.subrange(0, j),
                        ) && all_digits(sv.subrange(j + 1, sv.len() as int))) by {
                        if 0 < j && j + 1 < sv.len() && sv[j] == '.' && all_digits(
                            sv.subrange(0, j),
                        ) && all_digits(sv.subrange(j + 1, sv.len() as int)) {
                            if j0 > j {
                                assert(sv.subrange(j + 1, sv.len() as int)[j0 - j - 1]
                                    == sv[j0 as int]);
                            }
                        }
                    }
                }
                false
            }
        },
    }
}

/// Resolve a civil moment given as date and time text, as the serving
/// layer reads it out of stored rows. Text that does not parse fails with
/// `MalformedTimestamp`; a nonexistent local time with `InvalidLocalTime`.
pub fn resolve_text(date: &str, time: &str) -> (r: Result<ResolvedInstant, TimeError>)
    ensures
        !is_date_text(date@) || !is_time_text(time@) ==> r == Err::<ResolvedInstant, TimeError>(
            TimeError::MalformedTimestamp,
        ),
        is_date_text(date@) && is_time_text(time@) ==> r == resolve_spec(
            date_of_text(date@),
            time_of_text(time@),
        ),
        r matches Ok(ri) ==> ri.wf(),
{
    let d = match parse_date(date) {
        Some(d) => d,
        None => {
            return Err(TimeError::MalformedTimestamp);
        },
    };
    let t = match parse_time(time) {
        Some(t) => t,
        None => {
            return Err(TimeError::MalformedTimestamp);
        },
    };
    resolve(d, t)
}

/// Resolve a civil date given as text, at midnight local time.
pub fn resolve_date_text(date: &str) -> (r: Result<ResolvedInstant, TimeError>)
    ensures
        !is_date_text(date@) ==> r == Err::<ResolvedInstant, TimeError>(
            TimeError::MalformedTimestamp,
        ),
        is_date_text(date@) ==> r == resolve_spec(
            date_of_text(date@),
            CivilTime { hour: 0, minute: 0, second: 0 },
        ),
        r matches Ok(ri) ==> ri.wf(),
{
    let d = match parse_date(date) {
        Some(d) => d,
        None => {
            return Err(TimeError::MalformedTimestamp);
        },
    };
    resolve(d, CivilTime { hour: 0, minute: 0, second: 0 })
}

/// The semicolon-separated fields of a line: one more field than there
/// are separators, in order, each without its separator.
pub open spec fn split_semi(s: Seq<char>) -> Seq<Seq<char>>
    decreases s.len(),
{
    if s.len() == 0 {
        seq![Seq::<char>::empty()]
    } else if s[0] == ';' {
        seq![Seq::<char>::empty()] + split_semi(s.skip(1))
    } else {
        let rest = split_semi(s.skip(1));
        seq![seq![s[0]] + rest[0]] + rest.skip(1)
    }
}

/// `split_semi` is at least one field long.
pub proof fn lemma_split_semi_len(s: Seq<char>)
    ensures
        split_semi(s).len() >= 1,
    decreases s.len(),
{
    if s.len() != 0 && s[0] != ';' {
        lemma_split_semi_len(s.skip(1));
    }
}

/// Reading `split_semi` segment-wise: if no separator stands before
/// position `j`, the first field is exactly the text before `j`, and the
/// remaining fields are the split of what follows the separator at `j`.
pub proof fn lemma_split_semi_segment(s: Seq<char>, j: int)
    requires
        0 <= j <= s.len(),
        forall|k: int| 0 <= k < j ==> s[k] != ';',
        j < s.len() ==> s[j] == ';',
    ensures
        j == s.len() ==> split_semi(s) == seq![s],
        j < s.len() ==> split_semi(s) == seq![s.subrange(0, j)] + split_semi(
            s.subrange(j + 1, s.len() as int),
        ),
    decreases s.len(),
{
    if j == 0 {
        if s.len() == 0 {
            assert(split_semi(s) =~~= seq![s]);
        } else {
            assert(s[0] == ';');
            assert(s.subrange(0, 0) =~= Seq::<char>::empty());
            assert(s.subrange(1, s.len() as int) =~= s.skip(1));
            assert(split_semi(s) =~~= seq![s.subrange(0, 0)] + split_semi(
                s.subrange(1, s.len() as int),
            ));
        }
    } else {
        assert(s[0] != ';');
        let t = s.skip(1);
        assert(forall|k: int| 0 <= k < j - 1 ==> t[k] == s[k + 1]);
        lemma_split_semi_segment(t, j - 1);
        lemma_split_semi_len(t);
        let rest = split_semi(t);
        if j == s.len() {
            assert(rest == seq![t]);
            assert(seq![s[0]] + rest[0] =~= s);
            assert(rest.skip(1) =~= Seq::<Seq<char>>::empty());
            assert(split_semi(s) =~~= seq![s]);
        } else {
            assert(t[j - 1] == ';');
            assert(rest == seq![t.subrange(0, j - 1)] + split_semi(
                t.subrange(j, t.len() as int),
            ));
            assert(seq![s[0]] + rest[0] =~= s.subrange(0, j));
            assert(t.subrange(j, t.len() as int) =~= s.subrange(j + 1, s.len() as int));
            assert(rest.skip(1) =~= split_semi(s.subrange(j + 1, s.len() as int)));
            assert(split_semi(s) =~~= seq![s.subrange(0, j)] + split_semi(
                s.subrange(j + 1, s.len() as int),
            ));
        }
    }
}

/// Split a line into its semicolon-separated fields.
pub fn split_fields<'a>(s: &'a str) -> (r: Vec<&'a str>)
    ensures
        r@.map_values(|f: &str| f@) == split_semi(s@),
{
    let ghost sv = s@;
    let n = s.unicode_len();
    let mut fields: Vec<&str> = Vec::new();
    let mut start: usize = 0;
    let mut i: usize = 0;
    proof {
        assert(sv.skip(0) =~= sv);
        assert(fields@.map_values(|f: &str| f@) + split_semi(sv) =~= split_semi(sv));
    }
    while i < n
        invariant
            0 <= start as int <= i as int <= n as int,
            n == sv.len(),
            s@ == sv,
            forall|k: int| start <= k < i ==> sv[k] != ';',
            split_semi(sv) == fields@.map_values(|f: &str| f@) + split_semi(
                sv.skip(start as int),
            ),
        decreases n - i,
    {
        if s.get_char(i) == ';' {
            let f = s.substring_char(start, i);
            proof {
                let tail = sv.skip(start as int);
                assert(forall|k: int| 0 <= k < i - start ==> tail[k] == sv[k + start]);
                lemma_split_semi_segment(tail, i - start);
                assert(tail.subrange(0, i - start) =~= sv.subrange(start as int, i as int));
                assert(tail.subrange(i - start + 1, tail.len() as int) =~= sv.skip(i + 1));
                assert(f@ == sv.subrange(start as int, i as int));
                assert(fields@.push(f).map_values(|g: &str| g@) =~= fields@.map_values(
                    |g: &str| g@,
                ).push(f@));
                assert(fields@.map_values(|g: &str| g@).push(f@) + split_semi(sv.skip(i + 1))
                    =~= fields@.map_values(|g: &str| g@) + (seq![sv.subrange(
                    start as int,
                    i as int,
                )] + split_semi(sv.skip(i + 1))));
            }
            fields.push(f);
            start = i + 1;
        }
        i += 1;
    }
    let f = s.substring_char(start, n);
    proof {
        let tail = sv.skip(start as int);
        assert(forall|k: int| 0 <= k < n - start ==> tail[k] == sv[k + start]);
        lemma_split_semi_segment(tail, n - start);
        assert(tail =~= sv.subrange(start as int, n as int));
        assert(f@ == sv.subrange(start as int, n as int));
        assert(fields@.push(f).map_values(|g: &str| g@) =~= fields@.map_values(
            |g: &str| g@,
        ).push(f@));
        assert(fields@.map_values(|g: &str| g@).push(f@) =~= fields@.map_values(|g: &str| g@)
            + seq![tail]);
    }
    fields.push(f);
    fields
}

/// Why a log line was rejected. `WrongFieldCount` reports a line without
/// exactly five fields; the `Bad*` variants report the field that failed
/// its conversion; `InvalidLocalTime` is the resolver's failure for a
/// civil moment in a spring-forward gap, propagated as-is.
#[derive(Clone, Copy, PartialEq, Eq, Structural, Debug)]
pub enum EntryError {
    WrongFieldCount,
    BadDate,
    BadTime,
    BadConfidence,
    InvalidLocalTime,
}

impl EntryError {
    /// The zero-based index of the offending field, where one field is to
    /// blame.
    pub fn field_index(&self) -> (r: Option<u32>)
        ensures
            r == match self {
                EntryError::BadDate => Some(0u32),
                EntryError::BadTime => Some(1u32),
                EntryError::BadConfidence => Some(4u32),
                _ => None::<u32>,
            },
    {
        match self {
            EntryError::BadDate => Some(0),
            EntryError::BadTime => Some(1),
            EntryError::BadConfidence => Some(4),
            _ => None,
        }
    }
}

/// One parsed detection, ready to publish: the resolved instant, the two
/// names, and the confidence carried verbatim as decimal text.
#[derive(Debug, PartialEq)]
pub struct LogEntry {
    pub when: ResolvedInstant,
    pub scientific_name: String,
    pub common_name: String,
    pub confidence: String,
}

/// The mathematical shape of a [`LogEntry`].
pub struct LogEntryV {
    pub when: ResolvedInstant,
    pub scientific_name: Seq<char>,
    pub common_name: Seq<char>,
    pub confidence: Seq<char>,
}

impl View for LogEntry {
    type V = LogEntryV;

    open spec fn view(&self) -> LogEntryV {
        LogEntryV {
            when: self.when,
            scientific_name: self.scientific_name@,
            common_name: self.common_name@,
            confidence: self.confidence@,
        }
    }
}

/// What parsing one log line yields: the record, or the first error in
/// field order — field count, then date, time, confidence, then the
/// resolver's own failure.
pub open spec fn entry_of(line: Seq<char>) -> Result<LogEntryV, EntryError> {
    let fields = split_semi(line);
    if fields.len() != 5 {
        Err(EntryError::WrongFieldCount)
    } else if !is_date_text(fields[0]) {
        Err(EntryError::BadDate)
    } else if !is_time_text(fields[1]) {
        Err(EntryError::BadTime)
    } else if !is_confidence_text(fields[4]) {
        Err(EntryError::BadConfidence)
    } else {
        match resolve_spec(date_of_text(fields[0]), time_of_text(fields[1])) {
            Ok(ri) => Ok(
                LogEntryV {
                    when: ri,
                    scientific_name: fields[2],
                    common_name: fields[3],
                    confidence: fields[4],
                },
            ),
            Err(_) => Err(EntryError::InvalidLocalTime),
        }
    }
}

/// Parse one semicolon-delimited log line into an ingestion record.
/// No I/O and no side effects; never panics.
pub fn parse_entry(line: &str) -> (r: Result<LogEntry, EntryError>)
    ensures
        entry_of(line@) matches Ok(v) ==> r matches Ok(e) && e@ == v,
        entry_of(line@) matches Err(er) ==> r matches Err(e) && e == er,
{
    let fields = split_fields(line);
    proof {
        assert(fields@.len() == split_semi(line@).len());
        assert forall|k: int| 0 <= k < fields@.len() implies fields@[k]@ == split_semi(line@)[k] by {
            assert(fields@.map_values(|f: &str| f@)[k] == fields@[k]@);
        }
    }
    if fields.len() != 5 {
        return Err(EntryError::WrongFieldCount);
    }
    let date = match parse_date(fields[0]) {
        Some(d) => d,
        None => {
            return Err(EntryError::BadDate);
        },
    };
    let time = match parse_time(fields[1]) {
        Some(t) => t,
        None => {
            return Err(EntryError::BadTime);
        },
    };
    if !check_confidence(fields[4]) {
        return Err(EntryError::BadConfidence);
    }
    let when = match resolve(date, time) {
        Ok(ri) => ri,
        Err(_) => {
            return Err(EntryError::InvalidLocalTime);
        },
    };
    Ok(
        LogEntry {
            when,
            scientific_name: fields[2].to_owned(),
            common_name: fields[3].to_owned(),
            confidence: fields[4].to_owned(),
        },
    )
}

} // verus!
