//! The serving side: building media candidates from stored rows, deriving
//! the two media URLs of a detection, and annotating an ordered list of
//! candidates with reachability flags under a bounded, order-preserving
//! fan-out. The probes themselves are the caller's side; this module owns
//! the indexing that keeps the output in input order no matter which
//! probes finish first.

use vstd::prelude::*;

use crate::parse::{date_of_text, is_date_text, is_time_text, time_of_text};
use crate::text::{pad2_spec, pad4_spec, pad2, pad4};
use crate::time::{CivilDate, CivilTime, ResolvedInstant, TimeError, resolve_spec};

verus! {

/// Fixed upper bound on in-flight reachability probes.
pub const CONCURRENT_REQUESTS: usize = 5;

/// A local civil date rendered as `YYYY-MM-DD`.
pub open spec fn date_text_of(d: CivilDate) -> Seq<char> {
    pad4_spec(d.year as int) + seq!['-'] + pad2_spec(d.month as int) + seq!['-'] + pad2_spec(
        d.day as int,
    )
}

/// Render a local civil date as `YYYY-MM-DD`.
pub fn format_date(d: &CivilDate) -> (r: String)
    requires
        d.valid(),
    ensures
        r@ == date_text_of(*d),
{
    let mut out = pad4(d.year);
    out.append("-");
    let m = pad2(d.month);
    out.append(m.as_str());
    out.append("-");
    let day = pad2(d.day);
    out.append(day.as_str());
    proof {
        reveal_strlit("-");
        assert(out@ =~= date_text_of(*d));
    }
    out
}

/// A decimal digit reads back as its value.
pub proof fn lemma_digit_round_trip(k: int)
    requires
        0 <= k < 10,
    ensures
        crate::text::is_digit(crate::text::digit_char(k)),
        crate::text::digit_val(crate::text::digit_char(k)) == k,
{
}

/// Rendering a valid date as `YYYY-MM-DD` and reading the field back is
/// the identity: the URL date segment names exactly the local date it was
/// derived from.
#[verifier::rlimit(50)]
pub proof fn lemma_date_text_round_trip(d: CivilDate)
    requires
        d.valid(),
    ensures
        is_date_text(date_text_of(d)),
        date_of_text(date_text_of(d)) == d,
{
    let s = date_text_of(d);
    let y = d.year as int;
    let m = d.month as int;
    let day = d.day as int;
    assert(s.len() == 10);
    assert(s[0] == crate::text::digit_char(y / 1000));
    assert(s[1] == crate::text::digit_char(y / 100 % 10));
    assert(s[2] == crate::text::digit_char(y / 10 % 10));
    assert(s[3] == crate::text::digit_char(y % 10));
    assert(s[4] == '-');
    assert(s[5] == crate::text::digit_char(m / 10));
    assert(s[6] == crate::text::digit_char(m % 10));
    assert(s[7] == '-');
    assert(s[8] == crate::text::digit_char(day / 10));
    assert(s[9] == crate::text::digit_char(day % 10));
    lemma_digit_round_trip(y / 1000);
    lemma_digit_round_trip(y / 100 % 10);
    lemma_digit_round_trip(y / 10 % 10);
    lemma_digit_round_trip(y % 10);
    lemma_digit_round_trip(m / 10);
    lemma_digit_round_trip(m % 10);
    lemma_digit_round_trip(day / 10);
    lemma_digit_round_trip(day % 10);
    assert((y / 1000) * 1000 + (y / 100 % 10) * 100 + (y / 10 % 10) * 10 + y % 10 == y);
    assert((m / 10) * 10 + m % 10 == m);
    assert((day / 10) * 10 + day % 10 == day);
}

/// Spaces replaced by underscores; every other character untouched.
pub open spec fn underscored(s: Seq<char>) -> Seq<char> {
    s.map_values(
        |c: char|
            if c == ' ' {
                '_'
            } else {
                c
            },
    )
}

/// Make a name usable as a URL path segment.
pub fn urlify(s: &str) -> (r: String)
    ensures
        r@ == underscored(s@),
{
    let ghost sv = s@;
    let n = s.unicode_len();
    let mut out = String::new();
    let mut i: usize = 0;
    proof {
        assert(out@ =~= underscored(sv.subrange(0, 0)));
    }
    while i < n
        invariant
            0 <= i <= n,
            n == sv.len(),
            s@ == sv,
            out@ == underscored(sv.subrange(0, i as int)),
        decreases n - i,
    {
        let c = s.get_char(i);
        if c == ' ' {
            out.append("_");
            proof {
                reveal_strlit("_");
                assert(out@ =~= underscored(sv.subrange(0, i + 1)));
            }
        } else {
            let piece = s.substring_char(i, i + 1);
            out.append(piece);
            proof {
                assert(piece@ =~= seq![sv[i as int]]);
                assert(out@ =~= underscored(sv.subrange(0, i + 1)));
            }
        }
        i += 1;
    }
    proof {
        assert(sv.subrange(0, n as int) =~= sv);
    }
    out
}

/// The audio URL derived for a detection: the fixed host and `By_Date`
/// prefix, then the local date, the common name with spaces replaced by
/// underscores, and the file name verbatim.
pub open spec fn audio_url_of(d: CivilDate, common_name: Seq<char>, file_name: Seq<char>) -> Seq<
    char,
> {
    "http://192.168.0.164/By_Date/"@ + date_text_of(d) + "/"@ + underscored(common_name) + "/"@
        + file_name
}

/// The spectrogram URL: the audio URL with `.png` appended.
pub open spec fn spectrogram_url_of(
    d: CivilDate,
    common_name: Seq<char>,
    file_name: Seq<char>,
) -> Seq<char> {
    audio_url_of(d, common_name, file_name) + ".png"@
}

/// Derive the audio URL of a detection from its local date, common name
/// and stored file name.
pub fn audio_url(d: &CivilDate, common_name: &str, file_name: &str) -> (r: String)
    requires
        d.valid(),
    ensures
        r@ == audio_url_of(*d, common_name@, file_name@),
{
    let mut out = String::from_str("http://192.168.0.164/By_Date/");
    let date = format_date(d);
    out.append(date.as_str());
    out.append("/");
    let name = urlify(common_name);
    out.append(name.as_str());
    out.append("/");
    out.append(file_name);
    proof {
        assert(out@ =~= audio_url_of(*d, common_name@, file_name@));
    }
    out
}

/// Derive the spectrogram URL of a detection.
pub fn spectrogram_url(d: &CivilDate, common_name: &str, file_name: &str) -> (r: String)
    requires
        d.valid(),
    ensures
        r@ == spectrogram_url_of(*d, common_name@, file_name@),
{
    let mut out = audio_url(d, common_name, file_name);
    out.append(".png");
    out
}

/// One media candidate for a species listing: built from a stored row,
/// with both URLs derived and the availability flag absent until checked.
#[derive(Debug)]
pub struct FilesFor {
    pub when: ResolvedInstant,
    pub confidence: String,
    pub file_name: String,
    pub spectrogram_url: String,
    pub audio_url: String,
    pub available: Option<bool>,
}

/// The mathematical shape of a [`FilesFor`].
pub struct FilesForV {
    pub when: ResolvedInstant,
    pub confidence: Seq<char>,
    pub file_name: Seq<char>,
    pub spectrogram_url: Seq<char>,
    pub audio_url: Seq<char>,
    pub available: Option<bool>,
}

impl View for FilesFor {
    type V = FilesForV;

    open spec fn view(&self) -> FilesForV {
        FilesForV {
            when: self.when,
            confidence: self.confidence@,
            file_name: self.file_name@,
            spectrogram_url: self.spectrogram_url@,
            audio_url: self.audio_url@,
            available: self.available,
        }
    }
}

impl FilesFor {
    /// The same candidate with its availability flag set; nothing else
    /// changes.
    pub fn into_with_available(self, available: bool) -> (r: Self)
        ensures
            r@ == (FilesForV { available: Some(available), ..self@ }),
    {
        Self { available: Some(available), ..self }
    }
}

/// One recent detection with media links, from the last-day listing.
#[derive(Debug)]
pub struct Recently {
    pub when: ResolvedInstant,
    pub file_name: String,
    pub common_name: String,
    pub confidence: String,
    pub spectrogram_url: String,
    pub audio_url: String,
    pub available: Option<bool>,
}

/// The mathematical shape of a [`Recently`].
pub struct RecentlyV {
    pub when: ResolvedInstant,
    pub file_name: Seq<char>,
    pub common_name: Seq<char>,
    pub confidence: Seq<char>,
    pub spectrogram_url: Seq<char>,
    pub audio_url: Seq<char>,
    pub available: Option<bool>,
}

impl View for Recently {
    type V = RecentlyV;

    open spec fn view(&self) -> RecentlyV {
        RecentlyV {
            when: self.when,
            file_name: self.file_name@,
            common_name: self.common_name@,
            confidence: self.confidence@,
            spectrogram_url: self.spectrogram_url@,
            audio_url: self.audio_url@,
            available: self.available,
        }
    }
}

impl Recently {
    /// The same detection with its availability flag set; nothing else
    /// changes.
    pub fn into_with_available(self, available: bool) -> (r: Self)
        ensures
            r@ == (RecentlyV { available: Some(available), ..self@ }),
    {
        Self { available: Some(available), ..self }
    }
}

/// Build one species-listing candidate from the plain values of a stored
/// row. The timestamp texts are resolved in the fixed zone; the URLs are
/// derived from the resolved local date. Text that does not parse fails
/// with `MalformedTimestamp`; a civil moment in a gap, `InvalidLocalTime`.
pub fn files_for_row(
    date_text: &str,
    time_text: &str,
    file_name: &str,
    confidence: &str,
    common_name: &str,
) -> (r: Result<FilesFor, TimeError>)
    ensures
        !is_date_text(date_text@) || !is_time_text(time_text@) ==> r == Err::<FilesFor, TimeError>(
            TimeError::MalformedTimestamp,
        ),
        is_date_text(date_text@) && is_time_text(time_text@) ==> match resolve_spec(
            date_of_text(date_text@),
            time_of_text(time_text@),
        ) {
            Ok(ri) => r matches Ok(f) && f@ == (FilesForV {
                when: ri,
                confidence: confidence@,
                file_name: file_name@,
                spectrogram_url: spectrogram_url_of(ri.date, common_name@, file_name@),
                audio_url: audio_url_of(ri.date, common_name@, file_name@),
                available: None::<bool>,
            }),
            Err(e) => r == Err::<FilesFor, TimeError>(e),
        },
{
    let when = match crate::parse::resolve_text(date_text, time_text) {
        Ok(ri) => ri,
        Err(e) => {
            return Err(e);
        },
    };
    Ok(
        FilesFor {
            when,
            confidence: confidence.to_owned(),
            file_name: file_name.to_owned(),
            spectrogram_url: spectrogram_url(&when.date, common_name, file_name),
            audio_url: audio_url(&when.date, common_name, file_name),
            available: None,
        },
    )
}

/// Build one recent-detections row, as [`files_for_row`] but carrying the
/// common name through.
pub fn recently_row(
    date_text: &str,
    time_text: &str,
    common_name: &str,
    file_name: &str,
    confidence: &str,
) -> (r: Result<Recently, TimeError>)
    ensures
        !is_date_text(date_text@) || !is_time_text(time_text@) ==> r == Err::<Recently, TimeError>(
            TimeError::MalformedTimestamp,
        ),
        is_date_text(date_text@) && is_time_text(time_text@) ==> match resolve_spec(
            date_of_text(date_text@),
            time_of_text(time_text@),
        ) {
            Ok(ri) => r matches Ok(f) && f@ == (RecentlyV {
                when: ri,
                file_name: file_name@,
                common_name: common_name@,
                confidence: confidence@,
                spectrogram_url: spectrogram_url_of(ri.date, common_name@, file_name@),
                audio_url: audio_url_of(ri.date, common_name@, file_name@),
                available: None::<bool>,
            }),
            Err(e) => r == Err::<Recently, TimeError>(e),
        },
{
    let when = match crate::parse::resolve_text(date_text, time_text) {
        Ok(ri) => ri,
        Err(e) => {
            return Err(e);
        },
    };
    Ok(
        Recently {
            when,
            file_name: file_name.to_owned(),
            common_name: common_name.to_owned(),
            confidence: confidence.to_owned(),
            spectrogram_url: spectrogram_url(&when.date, common_name, file_name),
            audio_url: audio_url(&when.date, common_name, file_name),
            available: None,
        },
    )
}

/// Total detections for one species.
#[derive(Debug)]
pub struct DetectionsSummary {
    pub total: u64,
}

/// Detections of one day, keyed by the resolved local midnight.
#[derive(Debug)]
pub struct Daily {
    pub date: ResolvedInstant,
    pub detections: u64,
}

/// Build one daily-count row from a stored date text.
pub fn daily_row(date_text: &str, detections: u64) -> (r: Result<Daily, TimeError>)
    ensures
        !is_date_text(date_text@) ==> r == Err::<Daily, TimeError>(TimeError::MalformedTimestamp),
        is_date_text(date_text@) ==> match resolve_spec(
            date_of_text(date_text@),
            CivilTime { hour: 0, minute: 0, second: 0 },
        ) {
            Ok(ri) => r matches Ok(d) && d.date == ri && d.detections == detections,
            Err(e) => r == Err::<Daily, TimeError>(e),
        },
{
    match crate::parse::resolve_date_text(date_text) {
        Ok(ri) => Ok(Daily { date: ri, detections }),
        Err(e) => Err(e),
    }
}

/// Detections of one hour of the day.
#[derive(Debug)]
pub struct Hourly {
    pub number: u32,
    pub time: CivilTime,
    pub detections: u64,
}

/// Build one hourly-count row from a stored time text.
pub fn hourly_row(time_text: &str, detections: u64) -> (r: Result<Hourly, TimeError>)
    ensures
        !is_time_text(time_text@) ==> r == Err::<Hourly, TimeError>(TimeError::MalformedTimestamp),
        is_time_text(time_text@) ==> (r matches Ok(h) && h.time == time_of_text(time_text@)
            && h.number == time_of_text(time_text@).hour && h.detections == detections),
{
    match crate::parse::parse_time(time_text) {
        Some(t) => Ok(Hourly { number: t.hour, time: t, detections }),
        None => Err(TimeError::MalformedTimestamp),
    }
}

/// Aggregate per species: count, average confidence as text, and the
/// instant of the last detection.
#[derive(Debug)]
pub struct DetectionsByCommonName {
    pub common_name: String,
    pub total: u32,
    pub average_confidence: String,
    pub last_detection: ResolvedInstant,
}

/// Build one per-species aggregate row; the last detection is resolved
/// from the stored date and time of its newest entry.
pub fn by_common_name_row(
    common_name: &str,
    total: u32,
    average_confidence: &str,
    max_date: &str,
    max_time: &str,
) -> (r: Result<DetectionsByCommonName, TimeError>)
    ensures
        !is_date_text(max_date@) || !is_time_text(max_time@) ==> r == Err::<
            DetectionsByCommonName,
            TimeError,
        >(TimeError::MalformedTimestamp),
        is_date_text(max_date@) && is_time_text(max_time@) ==> match resolve_spec(
            date_of_text(max_date@),
            time_of_text(max_time@),
        ) {
            Ok(ri) => r matches Ok(d) && d.common_name@ == common_name@ && d.total == total
                && d.average_confidence@ == average_confidence@ && d.last_detection == ri,
            Err(e) => r == Err::<DetectionsByCommonName, TimeError>(e),
        },
{
    match crate::parse::resolve_text(max_date, max_time) {
        Ok(ri) => Ok(
            DetectionsByCommonName {
                common_name: common_name.to_owned(),
                total,
                average_confidence: average_confidence.to_owned(),
                last_detection: ri,
            },
        ),
        Err(e) => Err(e),
    }
}

/// Aggregate per day and species.
#[derive(Debug)]
pub struct DetectionsByTimeAndCommonName {
    pub when: ResolvedInstant,
    pub common_name: String,
    pub total: u32,
    pub average_confidence: String,
}

/// Build one per-day-and-species aggregate row; the day is resolved at
/// local midnight.
pub fn by_day_and_common_name_row(
    date_text: &str,
    common_name: &str,
    total: u32,
    average_confidence: &str,
) -> (r: Result<DetectionsByTimeAndCommonName, TimeError>)
    ensures
        !is_date_text(date_text@) ==> r == Err::<DetectionsByTimeAndCommonName, TimeError>(
            TimeError::MalformedTimestamp,
        ),
        is_date_text(date_text@) ==> match resolve_spec(
            date_of_text(date_text@),
            CivilTime { hour: 0, minute: 0, second: 0 },
        ) {
            Ok(ri) => r matches Ok(d) && d.when == ri && d.common_name@ == common_name@ && d.total
                == total && d.average_confidence@ == average_confidence@,
            Err(e) => r == Err::<DetectionsByTimeAndCommonName, TimeError>(e),
        },
{
    match crate::parse::resolve_date_text(date_text) {
        Ok(ri) => Ok(
            DetectionsByTimeAndCommonName {
                when: ri,
                common_name: common_name.to_owned(),
                total,
                average_confidence: average_confidence.to_owned(),
            },
        ),
        Err(e) => Err(e),
    }
}

pub open spec fn count_some(s: Seq<Option<bool>>) -> int
    decreases s.len(),
{
    if s.len() == 0 {
        0
    } else {
        (if s[0] is Some {
            1int
        } else {
            0int
        }) + count_some(s.skip(1))
    }
}

pub proof fn lemma_count_some_bounds(s: Seq<Option<bool>>)
    ensures
        0 <= count_some(s) <= s.len(),
    decreases s.len(),
{
    if s.len() != 0 {
        lemma_count_some_bounds(s.skip(1));
    }
}

/// Setting a pending slot raises the completed count by one.
pub proof fn lemma_count_some_update(s: Seq<Option<bool>>, i: int, b: bool)
    requires
        0 <= i < s.len(),
        s[i] is None,
    ensures
        count_some(s.update(i, Some(b))) == count_some(s) + 1,
    decreases s.len(),
{
    let u = s.update(i, Some(b));
    if i == 0 {
        assert(u.skip(1) =~= s.skip(1));
    } else {
        assert(u[0] == s[0]);
        assert(u.skip(1) =~= s.skip(1).update(i - 1, Some(b)));
        lemma_count_some_update(s.skip(1), i - 1, b);
    }
}

/// With every slot from `d` on still pending, at most `d` are completed.
pub proof fn lemma_count_some_tail(s: Seq<Option<bool>>, d: int)
    requires
        0 <= d <= s.len(),
        forall|k: int| d <= k < s.len() ==> s[k] is None,
    ensures
        count_some(s) <= d,
    decreases s.len(),
{
    if s.len() != 0 {
        if d == 0 {
            assert(s[0] is None);
            assert(forall|k: int| 0 <= k < s.skip(1).len() ==> s.skip(1)[k] == s[k + 1]);
            lemma_count_some_tail(s.skip(1), 0);
        } else {
            assert(forall|k: int| 0 <= k < s.skip(1).len() ==> s.skip(1)[k] == s[k + 1]);
            lemma_count_some_tail(s.skip(1), d - 1);
        }
    }
}

/// With one slot below `d` pending as well, strictly fewer than `d` are
/// completed.
pub proof fn lemma_count_some_strict(s: Seq<Option<bool>>, d: int, i0: int)
    requires
        0 <= i0 < d <= s.len(),
        s[i0] is None,
        forall|k: int| d <= k < s.len() ==> s[k] is None,
    ensures
        count_some(s) < d,
    decreases s.len(),
{
    assert(forall|k: int| 0 <= k < s.skip(1).len() ==> s.skip(1)[k] == s[k + 1]);
    if i0 == 0 {
        lemma_count_some_tail(s.skip(1), d - 1);
    } else {
        lemma_count_some_strict(s.skip(1), d - 1, i0 - 1);
    }
}

/// A full count means every slot is completed.
pub proof fn lemma_count_some_full(s: Seq<Option<bool>>)
    requires
        count_some(s) == s.len(),
    ensures
        forall|k: int| 0 <= k < s.len() ==> s[k] is Some,
    decreases s.len(),
{
    if s.len() != 0 {
        lemma_count_some_bounds(s.skip(1));
        lemma_count_some_full(s.skip(1));
        assert(forall|k: int| 1 <= k < s.len() ==> s[k] == s.skip(1)[k - 1]);
    }
}

/// Bookkeeping for one bounded, order-preserving fan-out of reachability
/// probes: work items are dispatched with their original index, at most
/// `bound` in flight, and each completion lands in the slot of its index,
/// so completion order never reaches the output.
pub struct ProbeRun {
    pub flags: Vec<Option<bool>>,
    pub dispatched: usize,
    pub completed: usize,
    pub bound: usize,
}

impl ProbeRun {
    /// Indexes are handed out in order; slots at or past `dispatched` are
    /// still pending; `completed` counts the filled slots, never ahead of
    /// `dispatched`.
    pub open spec fn wf(&self) -> bool {
        &&& self.dispatched <= self.flags@.len()
        &&& self.completed == count_some(self.flags@)
        &&& self.completed <= self.dispatched
        &&& forall|k: int| self.dispatched <= k < self.flags@.len() ==> self.flags@[k] is None
    }

    /// How many probes are in flight: dispatched and not yet completed.
    pub open spec fn in_flight(&self) -> int {
        self.dispatched - self.completed
    }

    /// A fresh run over `n` candidates with the given concurrency bound.
    pub fn new(n: usize, bound: usize) -> (r: Self)
        ensures
            r.wf(),
            r.flags@.len() == n,
            r.dispatched == 0,
            r.completed == 0,
            r.bound == bound,
    {
        let mut flags: Vec<Option<bool>> = Vec::new();
        let mut i: usize = 0;
        while i < n
            invariant
                0 <= i <= n,
                flags@.len() == i,
                forall|k: int| 0 <= k < i ==> flags@[k] is None,
            decreases n - i,
        {
            flags.push(None);
            i += 1;
        }
        proof {
            lemma_count_some_tail(flags@, 0);
            lemma_count_some_bounds(flags@);
        }
        Self { flags, dispatched: 0, completed: 0, bound }
    }

    /// Whether another probe may start: candidates remain and a
    /// concurrency lane is free.
    pub fn can_dispatch(&self) -> (r: bool)
        requires
            self.wf(),
        ensures
            r == (self.dispatched < self.flags@.len() && self.in_flight() < self.bound),
    {
        self.dispatched < self.flags.len() && self.dispatched - self.completed < self.bound
    }

    /// Hand out the next index to probe.
    pub fn dispatch(&mut self) -> (i: usize)
        requires
            old(self).wf(),
            old(self).dispatched < old(self).flags@.len(),
        ensures
            final(self).wf(),
            i == old(self).dispatched,
            final(self).dispatched == old(self).dispatched + 1,
            final(self).flags == old(self).flags,
            final(self).completed == old(self).completed,
            final(self).bound == old(self).bound,
    {
        let n = self.flags.len();
        let i = self.dispatched;
        proof {
            assert(i < n);
        }
        self.dispatched = self.dispatched + 1;
        i
    }

    /// Whether the slot of an index still awaits its probe result.
    pub fn is_pending(&self, i: usize) -> (r: bool)
        requires
            i < self.flags@.len(),
        ensures
            r == (self.flags@[i as int] is None),
    {
        self.flags[i].is_none()
    }

    /// Record the probe outcome of one dispatched index in its own slot.
    pub fn complete(&mut self, i: usize, ok: bool)
        requires
            old(self).wf(),
            i < old(self).dispatched,
            old(self).flags@[i as int] is None,
        ensures
            final(self).wf(),
            final(self).flags@ == old(self).flags@.update(i as int, Some(ok)),
            final(self).dispatched == old(self).dispatched,
            final(self).completed == old(self).completed + 1,
            final(self).bound == old(self).bound,
    {
        proof {
            lemma_count_some_strict(
                self.flags@,
                self.dispatched as int,
                i as int,
            );
            lemma_count_some_update(self.flags@, i as int, ok);
        }
        self.flags.set(i, Some(ok));
        self.completed = self.completed + 1;
    }

    /// Whether every candidate's probe outcome has landed.
    pub fn all_complete(&self) -> (r: bool)
        requires
            self.wf(),
        ensures
            r == (self.completed == self.flags@.len()),
            r ==> forall|k: int| 0 <= k < self.flags@.len() ==> self.flags@[k] is Some,
    {
        let r = self.completed == self.flags.len();
        proof {
            if self.completed == self.flags@.len() {
                lemma_count_some_full(self.flags@);
            }
        }
        r
    }

    /// The recorded outcome of one completed index.
    pub fn flag_at(&self, i: usize) -> (r: bool)
        requires
            i < self.flags@.len(),
            self.flags@[i as int] is Some,
        ensures
            self.flags@[i as int] == Some(r),
    {
        match self.flags[i] {
            Some(b) => b,
            None => false,
        }
    }
}

/// The annotated output as a function of the input and the per-index
/// flags alone: candidate `i` of the output is candidate `i` of the input
/// with its availability set to flag `i`. Completion order appears
/// nowhere.
pub open spec fn annotated_files(files: Seq<FilesForV>, flags: Seq<Option<bool>>) -> Seq<
    FilesForV,
> {
    Seq::new(files.len(), |i: int| FilesForV { available: flags[i], ..files[i] })
}

/// As [`annotated_files`], for the recent-detections listing.
pub open spec fn annotated_recently(files: Seq<RecentlyV>, flags: Seq<Option<bool>>) -> Seq<
    RecentlyV,
> {
    Seq::new(files.len(), |i: int| RecentlyV { available: flags[i], ..files[i] })
}

/// Ordering law for the availability check: however the probes were
/// scheduled and in whatever order they finished, a completed run
/// annotates the candidate list pointwise — the output has the input's
/// length and order, and position `i` differs from input position `i`
/// only in its availability flag.
pub proof fn lemma_check_all_preserves_order(files: Seq<FilesForV>, flags: Seq<Option<bool>>)
    requires
        files.len() == flags.len(),
    ensures
        annotated_files(files, flags).len() == files.len(),
        forall|i: int| 0 <= i < files.len() ==> annotated_files(files, flags)[i] == (FilesForV {
            available: flags[i],
            ..files[i]
        }),
{
}

/// Annotate a species listing with the outcomes of a completed probe run,
/// preserving input order.
pub fn check_files_available(files: Vec<FilesFor>, run: &ProbeRun) -> (r: Vec<FilesFor>)
    requires
        run.wf(),
        run.flags@.len() == files@.len(),
        run.completed == run.flags@.len(),
    ensures
        r@.map_values(|f: FilesFor| f@) == annotated_files(
            files@.map_values(|f: FilesFor| f@),
            run.flags@,
        ),
{
    proof {
        lemma_count_some_full(run.flags@);
    }
    let ghost orig = files@;
    let n = files.len();
    let mut rest = files;
    let mut out: Vec<FilesFor> = Vec::new();
    let mut i: usize = 0;
    proof {
        assert(rest@ =~= orig.skip(0));
    }
    while i < n
        invariant
            0 <= i <= n,
            n == orig.len(),
            run.wf(),
            run.flags@.len() == n,
            forall|k: int| 0 <= k < n ==> run.flags@[k] is Some,
            rest@ == orig.skip(i as int),
            out@.len() == i,
            forall|k: int| 0 <= k < i ==> out@[k]@ == (FilesForV {
                available: run.flags@[k],
                ..orig[k]@
            }),
        decreases n - i,
    {
        let f = rest.remove(0);
        proof {
            assert(orig.skip(i as int)[0] == orig[i as int]);
            assert(orig.skip(i as int).remove(0) =~= orig.skip(i + 1));
        }
        let b = run.flag_at(i);
        let g = f.into_with_available(b);
        out.push(g);
        i += 1;
    }
    proof {
        assert(out@.map_values(|f: FilesFor| f@) =~= annotated_files(
            orig.map_values(|f: FilesFor| f@),
            run.flags@,
        ));
    }
    out
}

/// Annotate the recent-detections listing with the outcomes of a
/// completed probe run, preserving input order.
pub fn check_recentlies_available(files: Vec<Recently>, run: &ProbeRun) -> (r: Vec<Recently>)
    requires
        run.wf(),
        run.flags@.len() == files@.len(),
        run.completed == run.flags@.len(),
    ensures
        r@.map_values(|f: Recently| f@) == annotated_recently(
            files@.map_values(|f: Recently| f@),
            run.flags@,
        ),
{
    proof {
        lemma_count_some_full(run.flags@);
    }
    let ghost orig = files@;
    let n = files.len();
    let mut rest = files;
    let mut out: Vec<Recently> = Vec::new();
    let mut i: usize = 0;
    proof {
        assert(rest@ =~= orig.skip(0));
    }
    while i < n
        invariant
            0 <= i <= n,
            n == orig.len(),
            run.wf(),
            run.flags@.len() == n,
            forall|k: int| 0 <= k < n ==> run.flags@[k] is Some,
            rest@ == orig.skip(i as int),
            out@.len() == i,
            forall|k: int| 0 <= k < i ==> out@[k]@ == (RecentlyV {
                available: run.flags@[k],
                ..orig[k]@
            }),
        decreases n - i,
    {
        let f = rest.remove(0);
        proof {
            assert(orig.skip(i as int)[0] == orig[i as int]);
            assert(orig.skip(i as int).remove(0) =~= orig.skip(i + 1));
        }
        let b = run.flag_at(i);
        let g = f.into_with_available(b);
        out.push(g);
        i += 1;
    }
    proof {
        assert(out@.map_values(|f: Recently| f@) =~= annotated_recently(
            orig.map_values(|f: Recently| f@),
            run.flags@,
        ));
    }
    out
}

/// A candidate is available only when both of its probes succeeded; any
/// failure reads as unavailable, never as an error.
pub fn probes_available(spectrogram_ok: bool, audio_ok: bool) -> (r: bool)
    ensures
        r == (spectrogram_ok && audio_ok),
{
    spectrogram_ok && audio_ok
}

} // verus!
