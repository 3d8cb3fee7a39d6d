//! The publish side of ingestion: turning parsed log entries into
//! time-series points, rendering the line-protocol text, and the
//! fail-fast batch parse of a whole log file. The network write itself
//! is an external collaborator fed one point per call.

use vstd::prelude::*;

use crate::parse::{EntryError, LogEntry, LogEntryV, entry_of};
use crate::text::{dec_spec, fmt_u128};

verus! {

/// A log file to publish from, identified by its path. Reading and
/// watching the file is the caller's side; the path is carried here.
pub struct BirdLog {
    pub path: String,
}

impl BirdLog {
    pub fn new(path: String) -> (r: Self)
        ensures
            r.path == path,
    {
        Self { path }
    }
}

/// The publish payload for one detection: the fixed measurement `birds`
/// with the fixed tag `station=backyard`, one field keyed by the species
/// common name holding the confidence, and the UTC instant at nanosecond
/// resolution.
pub struct TimePoint {
    pub common_name: String,
    pub confidence: String,
    pub timestamp_nanos: i128,
}

/// The mathematical shape of a [`TimePoint`].
pub struct TimePointV {
    pub common_name: Seq<char>,
    pub confidence: Seq<char>,
    pub timestamp_nanos: int,
}

impl View for TimePoint {
    type V = TimePointV;

    open spec fn view(&self) -> TimePointV {
        TimePointV {
            common_name: self.common_name@,
            confidence: self.confidence@,
            timestamp_nanos: self.timestamp_nanos as int,
        }
    }
}

/// The point published for an entry: common name and confidence carried
/// verbatim, the instant scaled to nanoseconds.
pub open spec fn point_of(e: LogEntryV) -> TimePointV {
    TimePointV {
        common_name: e.common_name,
        confidence: e.confidence,
        timestamp_nanos: e.when.utc_secs * 1_000_000_000,
    }
}

/// The explicit conversion from a parsed entry to its publish payload.
pub fn to_point(e: &LogEntry) -> (r: TimePoint)
    ensures
        r@ == point_of(e@),
{
    TimePoint {
        common_name: e.common_name.clone(),
        confidence: e.confidence.clone(),
        timestamp_nanos: e.when.timestamp_nanos(),
    }
}

/// Each space escaped as backslash-space, as the line protocol wants
/// field keys written.
pub open spec fn escape_spaces(s: Seq<char>) -> Seq<char>
    decreases s.len(),
{
    if s.len() == 0 {
        Seq::<char>::empty()
    } else {
        (if s[0] == ' ' {
            seq!['\\', ' ']
        } else {
            seq![s[0]]
        }) + escape_spaces(s.skip(1))
    }
}

/// Escape the spaces of a field key.
pub fn escaped_spaces(s: &str) -> (r: String)
    ensures
        r@ == escape_spaces(s@),
{
    let ghost sv = s@;
    let n = s.unicode_len();
    let mut out = String::new();
    let mut i: usize = 0;
    proof {
        assert(sv.skip(0) =~= sv);
    }
    while i < n
        invariant
            0 <= i <= n,
            n == sv.len(),
            s@ == sv,
            escape_spaces(sv) == out@ + escape_spaces(sv.skip(i as int)),
        decreases n - i,
    {
        let c = s.get_char(i);
        proof {
            let tail = sv.skip(i as int);
            assert(tail.len() > 0);
            assert(tail[0] == sv[i as int]);
            assert(tail.skip(1) =~= sv.skip(i + 1));
        }
        if c == ' ' {
            out.append("\\ ");
            proof {
                reveal_strlit("\\ ");
                assert("\\ "@ =~= seq!['\\', ' ']);
                assert(out@ + escape_spaces(sv.skip(i + 1)) =~= escape_spaces(sv));
            }
        } else {
            let piece = s.substring_char(i, i + 1);
            out.append(piece);
            proof {
                assert(piece@ =~= seq![sv[i as int]]);
                assert(out@ + escape_spaces(sv.skip(i + 1)) =~= escape_spaces(sv));
            }
        }
        i += 1;
    }
    proof {
        assert(escape_spaces(sv.skip(n as int)) =~= Seq::<char>::empty());
        assert(out@ =~= escape_spaces(sv));
    }
    out
}

/// The decimal rendering of a possibly negative number.
pub open spec fn dec_signed_spec(n: int) -> Seq<char> {
    if n < 0 {
        seq!['-'] + dec_spec((-n) as nat)
    } else {
        dec_spec(n as nat)
    }
}

/// Decimal rendering of a signed number.
pub fn fmt_i128(n: i128) -> (r: String)
    requires
        n > i128::MIN,
    ensures
        r@ == dec_signed_spec(n as int),
{
    if n < 0 {
        let mut out = String::from_str("-");
        let digits = fmt_u128((-n) as u128);
        out.append(digits.as_str());
        proof {
            reveal_strlit("-");
            assert(out@ =~= dec_signed_spec(n as int));
        }
        out
    } else {
        fmt_u128(n as u128)
    }
}

/// One line of InfluxDB line protocol.
pub struct InfluxLineProtocol(pub String);

/// The line-protocol rendering of an entry: measurement and tag fixed,
/// the common name as field key with its spaces escaped, the confidence
/// text as field value, then the nanosecond timestamp.
pub open spec fn line_protocol_of(e: LogEntryV) -> Seq<char> {
    "birds,station=backyard "@ + escape_spaces(e.common_name) + "="@ + e.confidence + " "@
        + dec_signed_spec(e.when.utc_secs * 1_000_000_000)
}

impl LogEntry {
    /// Render this entry as one line of line protocol.
    pub fn to_line_protocol(&self) -> (r: InfluxLineProtocol)
        ensures
            r.0@ == line_protocol_of(self@),
    {
        let mut out = String::from_str("birds,station=backyard ");
        let key = escaped_spaces(self.common_name.as_str());
        out.append(key.as_str());
        out.append("=");
        out.append(self.confidence.as_str());
        out.append(" ");
        let nanos = self.when.timestamp_nanos();
        let stamp = fmt_i128(nanos);
        out.append(stamp.as_str());
        proof {
            assert(out@ =~= line_protocol_of(self@));
        }
        InfluxLineProtocol(out)
    }
}

/// A whole batch parses when every line after the header does.
pub open spec fn batch_ok(lines: Seq<Seq<char>>) -> bool {
    forall|i: int| 1 <= i < lines.len() ==> entry_of(lines[i]) is Ok
}

/// Parse a whole log file, skipping the one header line, failing fast on
/// the first bad line as batch publishing does: a parse failure aborts
/// the remaining run rather than being skipped.
pub fn parse_batch(lines: &Vec<String>) -> (r: Result<Vec<LogEntry>, EntryError>)
    ensures
        r is Ok <==> batch_ok(lines@.map_values(|l: String| l@)),
        r matches Ok(v) ==> v@.len() == (if lines@.len() == 0 {
            0int
        } else {
            lines@.len() - 1
        }) && (forall|i: int|
            0 <= i < v@.len() ==> entry_of(lines@[i + 1]@) == Ok::<LogEntryV, EntryError>(
                v@[i]@,
            )),
        r matches Err(e) ==> exists|i: int|
            1 <= i < lines@.len() && entry_of(lines@[i]@) == Err::<LogEntryV, EntryError>(e) && (
            forall|j: int| 1 <= j < i ==> entry_of(lines@[j]@) is Ok),
{
    let ghost lv = lines@.map_values(|l: String| l@);
    let n = lines.len();
    let mut out: Vec<LogEntry> = Vec::new();
    if n == 0 {
        return Ok(out);
    }
    let mut i: usize = 1;
    while i < n
        invariant
            1 <= i <= n,
            n == lines@.len(),
            lv == lines@.map_values(|l: String| l@),
            out@.len() == i - 1,
            forall|j: int| 1 <= j < i ==> entry_of(lines@[j]@) is Ok,
            forall|k: int|
                0 <= k < out@.len() ==> entry_of(lines@[k + 1]@) == Ok::<LogEntryV, EntryError>(
                    out@[k]@,
                ),
        decreases n - i,
    {
        match crate::parse::parse_entry(lines[i].as_str()) {
            Ok(e) => {
                out.push(e);
            },
            Err(er) => {
                proof {
                    assert(lv[i as int] == lines@[i as int]@);
                    assert(entry_of(lines@[i as int]@) is Err);
                }
                return Err(er);
            },
        }
        i += 1;
    }
    proof {
        assert(forall|j: int| 1 <= j < lines@.len() ==> lv[j] == lines@[j]@);
    }
    Ok(out)
}

} // verus!
