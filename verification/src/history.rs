//! The history log's records: what the engine remembers of executions.
//!
//! The log is an append-only journal of newline-delimited JSON records,
//! one per line: `{"timestamp": ..., "scheduleId": ..., "tool": ...,
//! "status": ...}` with the timestamp written as an RFC 3339 UTC instant.
//! Entries are never mutated or deleted; a schedule's last run is the
//! entry with the greatest timestamp among those carrying its id,
//! whatever its status. Writers append one fully formed line at a time,
//! so a reader never sees a half-written record; the file handling lives
//! outside the library, which only builds and reads whole records.

use vstd::prelude::*;
use vstd::arithmetic::div_mod::lemma_fundamental_div_mod;
use vstd::arithmetic::div_mod::lemma_fundamental_div_mod_converse;
use crate::date::MAX_DAY_NUMBER;
use crate::clock::spec_digit_val;
use crate::clock::spec_is_digit;
use crate::date::CalendarDate;
use crate::date::MAX_INSTANT;
use crate::date::day_to_civil;
use crate::date::lemma_day_number_injective;
use crate::date::spec_civil_of_day;
use crate::schedule::Tool;
use crate::text::decimal_string;
use crate::text::escape_applescript_string;
use crate::text::four_digit_string;
use crate::text::lemma_decimal_of_digits;
use crate::text::lemma_decimal_shape;
use crate::text::lemma_decimal_value;
use crate::text::spec_decimal;
use crate::text::spec_digits_value;
use crate::text::spec_escape;
use crate::text::spec_escape_char;
use crate::text::spec_four_digits;
use crate::text::spec_two_digits;
use crate::text::two_digit_string;

verus! {

/// One immutable fact about an execution.
#[derive(Debug)]
pub struct HistoryEntry {
    /// UTC instant of the event, seconds since the epoch.
    pub timestamp: i64,
    pub schedule_id: u64,
    pub tool: Tool,
    /// Status token; the engine writes the vocabulary of
    /// `HistoryStatus`, but the log is an open set.
    pub status: String,
}

impl Clone for HistoryEntry {
    fn clone(&self) -> (r: Self)
        ensures
            r == *self,
    {
        HistoryEntry {
            timestamp: self.timestamp,
            schedule_id: self.schedule_id,
            tool: self.tool,
            status: self.status.clone(),
        }
    }
}

/// The status vocabulary the engine itself records.
#[derive(Clone, Copy, PartialEq, Eq, Structural, Debug)]
pub enum HistoryStatus {
    Started,
    CatchupStarted,
    CatchupSuccess,
    CatchupFailure,
    CatchupSkippedRunning,
    WakeMissed,
    RateLimitDetected,
    Cancelled,
    /// Completion, carrying the measured elapsed time.
    CompletedIn { minutes: u64, seconds: u64 },
}

impl HistoryStatus {
    /// The status token as written into the log.
    pub open spec fn spec_token(self) -> Seq<char> {
        match self {
            HistoryStatus::Started => "started"@,
            HistoryStatus::CatchupStarted => "catchup-started"@,
            HistoryStatus::CatchupSuccess => "catchup-success"@,
            HistoryStatus::CatchupFailure => "catchup-failure"@,
            HistoryStatus::CatchupSkippedRunning => "catchup-skipped-running"@,
            HistoryStatus::WakeMissed => "wake-missed"@,
            HistoryStatus::RateLimitDetected => "rate-limit-detected"@,
            HistoryStatus::Cancelled => "cancelled"@,
            HistoryStatus::CompletedIn { minutes, seconds } => "completed_in_"@ + spec_decimal(
                minutes as int,
            ) + "m"@ + spec_decimal(seconds as int) + "s"@,
        }
    }

    /// Render the status token.
    pub fn token(&self) -> (r: String)
        ensures
            r@ =~= self.spec_token(),
    {
        match self {
            HistoryStatus::Started => String::from_str("started"),
            HistoryStatus::CatchupStarted => String::from_str("catchup-started"),
            HistoryStatus::CatchupSuccess => String::from_str("catchup-success"),
            HistoryStatus::CatchupFailure => String::from_str("catchup-failure"),
            HistoryStatus::CatchupSkippedRunning => String::from_str("catchup-skipped-running"),
            HistoryStatus::WakeMissed => String::from_str("wake-missed"),
            HistoryStatus::RateLimitDetected => String::from_str("rate-limit-detected"),
            HistoryStatus::Cancelled => String::from_str("cancelled"),
            HistoryStatus::CompletedIn { minutes, seconds } => {
                let mut s = String::from_str("completed_in_");
                s.append(decimal_string(*minutes).as_str());
                s.append("m");
                s.append(decimal_string(*seconds).as_str());
                s.append("s");
                s
            },
        }
    }
}

/// Build the entry recording `status` for `schedule_id` at instant `now`.
pub fn make_entry(now: i64, schedule_id: u64, tool: Tool, status: HistoryStatus) -> (r:
    HistoryEntry)
    ensures
        r.timestamp == now,
        r.schedule_id == schedule_id,
        r.tool == tool,
        r.status@ =~= status.spec_token(),
{
    HistoryEntry { timestamp: now, schedule_id, tool, status: status.token() }
}

/// The greatest timestamp among the entries carrying `id`, scanning the
/// whole log; `None` when the log holds no entry for `id`.
pub fn latest_timestamp_for(log: &Vec<HistoryEntry>, id: u64) -> (r: Option<i64>)
    ensures
        r is None <==> (forall|j: int| 0 <= j < log@.len() ==> log@[j].schedule_id != id),
        r matches Some(t) ==> (exists|j: int|
            0 <= j < log@.len() && log@[j].schedule_id == id && log@[j].timestamp == t) && (forall|
            j: int,
        |
            0 <= j < log@.len() && log@[j].schedule_id == id ==> log@[j].timestamp <= t),
{
    let mut best: Option<i64> = None;
    let mut i: usize = 0;
    while i < log.len()
        invariant
            i <= log@.len(),
            best is None <==> (forall|j: int| 0 <= j < i ==> log@[j].schedule_id != id),
            best matches Some(t) ==> (exists|j: int|
                0 <= j < i && log@[j].schedule_id == id && log@[j].timestamp == t) && (forall|
                j: int,
            |
                0 <= j < i && log@[j].schedule_id == id ==> log@[j].timestamp <= t),
        decreases log@.len() - i,
    {
        if log[i].schedule_id == id {
            let ts = log[i].timestamp;
            match best {
                None => {
                    best = Some(ts);
                },
                Some(b) => {
                    if ts > b {
                        best = Some(ts);
                    }
                },
            }
        }
        i = i + 1;
    }
    best
}

/// The RFC 3339 rendering of a UTC instant, down to whole seconds:
/// `YYYY-MM-DDTHH:MM:SSZ`.
pub open spec fn spec_rfc3339(t: int) -> Seq<char> {
    let date = spec_civil_of_day(t / 86400);
    let s = t % 86400;
    spec_four_digits(date.year as int) + "-"@ + spec_two_digits(date.month as int) + "-"@
        + spec_two_digits(date.day as int) + "T"@ + spec_two_digits(s / 3600) + ":"@
        + spec_two_digits((s % 3600) / 60) + ":"@ + spec_two_digits(s % 60) + "Z"@
}

/// Render a UTC instant in RFC 3339 form, `YYYY-MM-DDTHH:MM:SSZ`.
pub fn rfc3339_utc(t: i64) -> (r: String)
    requires
        0 <= t <= MAX_INSTANT,
    ensures
        r@ =~= spec_rfc3339(t as int),
{
    let day: u32 = ((t as u64) / 86400) as u32;
    let secs: u32 = ((t as u64) % 86400) as u32;
    let date: CalendarDate = day_to_civil(day);
    let mut s = four_digit_string(date.year);
    s.append("-");
    s.append(two_digit_string(date.month).as_str());
    s.append("-");
    s.append(two_digit_string(date.day).as_str());
    s.append("T");
    s.append(two_digit_string((secs / 3600) as u8).as_str());
    s.append(":");
    s.append(two_digit_string(((secs % 3600) / 60) as u8).as_str());
    s.append(":");
    s.append(two_digit_string((secs % 60) as u8).as_str());
    s.append("Z");
    s
}

/// The log line of one entry: a single flat JSON object, the timestamp
/// in RFC 3339 form, the schedule id in decimal, and the status escaped
/// so that quotes, backslashes and line breaks in it cannot split or
/// corrupt the record.
pub open spec fn spec_history_line(e: HistoryEntry) -> Seq<char> {
    "{\"timestamp\":\""@ + spec_rfc3339(e.timestamp as int) + "\",\"scheduleId\":\""@
        + spec_decimal(e.schedule_id as int) + "\",\"tool\":\""@ + e.tool.spec_name()
        + "\",\"status\":\""@ + spec_escape(e.status@) + "\"}"@
}

/// True when the string carries the literal at the position.
fn has_lit_at(s: &str, i: usize, lit: &str) -> (r: bool)
    ensures
        r == (i + lit@.len() <= s@.len() && s@.subrange(i as int, i as int + lit@.len() as int)
            == lit@),
{
    let n = s.unicode_len();
    let ll = lit.unicode_len();
    if i > n || ll > n - i {
        return false;
    }
    let piece = s.substring_char(i, i + ll);
    piece.to_owned().eq(&lit.to_owned())
}

/// True when position i holds exactly the character c.
fn char_at_is(s: &str, i: usize, c: char) -> (r: bool)
    ensures
        r == (i < s@.len() && s@[i as int] == c),
{
    i < s.unicode_len() && s.get_char(i) == c
}

fn digit_at(s: &str, i: usize) -> (r: Option<u8>)
    ensures
        r matches Some(v) ==> i < s@.len() && spec_is_digit(s@[i as int]) && v < 10 && v as int
            == spec_digit_val(s@[i as int]),
        r is None ==> !(i < s@.len() && spec_is_digit(s@[i as int])),
{
    if i >= s.unicode_len() {
        return None;
    }
    let c = s.get_char(i);
    let code = c as u32;
    if 48 <= code && code <= 57 {
        Some((code - 48) as u8)
    } else {
        None
    }
}

/// Parse exactly two digits at position i.
fn two_digits_at(s: &str, i: usize) -> (r: Option<u8>)
    requires
        i + 2 <= usize::MAX,
    ensures
        r matches Some(v) ==> v < 100 && i + 2 <= s@.len() && spec_two_digits(v as int)
            == s@.subrange(i as int, i as int + 2),
        i + 2 <= s@.len() && spec_is_digit(s@[i as int]) && spec_is_digit(s@[i as int + 1])
            ==> r is Some,
{
    let d1 = match digit_at(s, i) {
        Some(d) => d,
        None => {
            return None;
        },
    };
    let d2 = match digit_at(s, i + 1) {
        Some(d) => d,
        None => {
            return None;
        },
    };
    let v: u8 = d1 * 10 + d2;
    proof {
        lemma_fundamental_div_mod_converse(v as int, 10, d1 as int, d2 as int);
        crate::text::lemma_digit_char_of_val(s@[i as int]);
        crate::text::lemma_digit_char_of_val(s@[i as int + 1]);
        assert(spec_two_digits(v as int) =~= s@.subrange(i as int, i as int + 2));
    }
    Some(v)
}

/// Parse exactly four digits at position i.
fn four_digits_at(s: &str, i: usize) -> (r: Option<u16>)
    requires
        i + 4 <= usize::MAX,
    ensures
        r matches Some(v) ==> v < 10000 && i + 4 <= s@.len() && spec_four_digits(v as int)
            == s@.subrange(i as int, i as int + 4),
        i + 4 <= s@.len() && (forall|k: int| i <= k < i + 4 ==> spec_is_digit(#[trigger] s@[k]))
            ==> r is Some,
{
    let h = match two_digits_at(s, i) {
        Some(d) => d,
        None => {
            return None;
        },
    };
    let l = match two_digits_at(s, i + 2) {
        Some(d) => d,
        None => {
            return None;
        },
    };
    let v: u16 = h as u16 * 100 + l as u16;
    proof {
        let hi = h as int;
        let li = l as int;
        let vi = v as int;
        vstd::arithmetic::div_mod::lemma_fundamental_div_mod(hi, 10);
        vstd::arithmetic::div_mod::lemma_fundamental_div_mod(li, 10);
        lemma_fundamental_div_mod_converse(vi, 100, hi, li);
        lemma_fundamental_div_mod_converse(vi, 1000, hi / 10, 100 * (hi % 10) + li);
        lemma_fundamental_div_mod_converse(vi, 10, 10 * hi + li / 10, li % 10);
        lemma_fundamental_div_mod_converse(10 * hi + li / 10, 10, hi, li / 10);
        assert(spec_four_digits(vi) =~= s@.subrange(i as int, i as int + 4));
    }
    Some(v)
}

/// How the twenty characters of an RFC 3339 rendering decompose: the
/// civil fields of the instant's day, then its time of day, each in its
/// fixed position, every numeric position a digit.
proof fn lemma_rfc3339_fields(t: int)
    requires
        0 <= t <= MAX_INSTANT,
    ensures
        ({
            let c = spec_civil_of_day(t / 86400);
            let rec = spec_rfc3339(t);
            &&& rec.len() == 20
            &&& c.wf()
            &&& rec.subrange(0, 4) == spec_four_digits(c.year as int)
            &&& rec[4] == '-'
            &&& rec.subrange(5, 7) == spec_two_digits(c.month as int)
            &&& rec[7] == '-'
            &&& rec.subrange(8, 10) == spec_two_digits(c.day as int)
            &&& rec[10] == 'T'
            &&& rec.subrange(11, 13) == spec_two_digits((t % 86400) / 3600)
            &&& rec[13] == ':'
            &&& rec.subrange(14, 16) == spec_two_digits(((t % 86400) % 3600) / 60)
            &&& rec[16] == ':'
            &&& rec.subrange(17, 19) == spec_two_digits((t % 86400) % 60)
            &&& rec[19] == 'Z'
            &&& 0 <= (t % 86400) / 3600 < 24
            &&& 0 <= ((t % 86400) % 3600) / 60 < 60
            &&& 0 <= (t % 86400) % 60 < 60
            &&& (forall|k: int| 0 <= k < 20 && !(k == 4 || k == 7 || k == 10 || k == 13 || k == 16
                || k == 19) ==> spec_is_digit(#[trigger] rec[k]))
        }),
{
    lemma_fundamental_div_mod(t, 86400);
    assert(t / 86400 <= MAX_DAY_NUMBER) by {
        if t / 86400 > MAX_DAY_NUMBER {
            assert(t >= 86400 * (MAX_DAY_NUMBER + 1));
        }
    }
    crate::date::lemma_civil_of_day_wf(t / 86400);
    let c = spec_civil_of_day(t / 86400);
    let rec = spec_rfc3339(t);
    reveal_strlit("-");
    reveal_strlit("T");
    reveal_strlit(":");
    reveal_strlit("Z");
    let secs = t % 86400;
    lemma_fundamental_div_mod(secs, 3600);
    lemma_fundamental_div_mod(secs % 3600, 60);
    lemma_fundamental_div_mod(secs, 60);
    assert(rec.subrange(0, 4) =~= spec_four_digits(c.year as int));
    assert(rec.subrange(5, 7) =~= spec_two_digits(c.month as int));
    assert(rec.subrange(8, 10) =~= spec_two_digits(c.day as int));
    assert(rec.subrange(11, 13) =~= spec_two_digits(secs / 3600));
    assert(rec.subrange(14, 16) =~= spec_two_digits((secs % 3600) / 60));
    assert(rec.subrange(17, 19) =~= spec_two_digits(secs % 60));
    crate::text::lemma_four_digits_all(c.year as int);
    crate::text::lemma_two_digits_all(c.month as int);
    crate::text::lemma_two_digits_all(c.day as int);
    crate::text::lemma_two_digits_all(secs / 3600);
    crate::text::lemma_two_digits_all((secs % 3600) / 60);
    crate::text::lemma_two_digits_all(secs % 60);
    assert forall|k: int|
        0 <= k < 20 && !(k == 4 || k == 7 || k == 10 || k == 13 || k == 16 || k == 19)
            implies spec_is_digit(#[trigger] rec[k]) by {
        if k < 4 {
            assert(rec[k] == spec_four_digits(c.year as int)[k]);
        } else if k < 7 {
            assert(rec[k] == spec_two_digits(c.month as int)[k - 5]);
        } else if k < 10 {
            assert(rec[k] == spec_two_digits(c.day as int)[k - 8]);
        } else if k < 13 {
            assert(rec[k] == spec_two_digits(secs / 3600)[k - 11]);
        } else if k < 16 {
            assert(rec[k] == spec_two_digits((secs % 3600) / 60)[k - 14]);
        } else {
            assert(rec[k] == spec_two_digits(secs % 60)[k - 17]);
        }
    }
}

/// Parse a twenty-character RFC 3339 UTC timestamp at position i.
///
/// Sound and complete: any returned instant re-renders to exactly the
/// characters read, and whenever those twenty characters are the
/// rendering of some representable instant, the parse succeeds.
#[verifier::rlimit(100)]
fn rfc3339_at(s: &str, i: usize) -> (r: Option<i64>)
    requires
        i + 20 <= usize::MAX,
    ensures
        r matches Some(t) ==> 0 <= t <= MAX_INSTANT && i + 20 <= s@.len() && spec_rfc3339(t as int)
            == s@.subrange(i as int, i as int + 20),
        (i + 20 <= s@.len() && exists|t: i64|
            0 <= t <= MAX_INSTANT && s@.subrange(i as int, i as int + 20) == spec_rfc3339(
                t as int,
            )) ==> r is Some,
{
    let ghost hw = i + 20 <= s@.len() && exists|t: i64|
        0 <= t <= MAX_INSTANT && s@.subrange(i as int, i as int + 20) == spec_rfc3339(t as int);
    proof {
        if hw {
            let t = choose|t: i64|
                0 <= t <= MAX_INSTANT && s@.subrange(i as int, i as int + 20) == spec_rfc3339(
                    t as int,
                );
            lemma_rfc3339_fields(t as int);
            let rec = spec_rfc3339(t as int);
            assert(forall|k: int|
                0 <= k < 20 ==> s@[i as int + k] == #[trigger] rec[k]) by {
                assert(forall|k: int|
                    0 <= k < 20 ==> #[trigger] rec[k] == s@.subrange(
                        i as int,
                        i as int + 20,
                    )[k]);
            }
            assert(s@.subrange(i as int, i as int + 4) =~= rec.subrange(0, 4));
            assert(s@.subrange(i as int + 5, i as int + 7) =~= rec.subrange(5, 7));
            assert(s@.subrange(i as int + 8, i as int + 10) =~= rec.subrange(8, 10));
            assert(s@.subrange(i as int + 11, i as int + 13) =~= rec.subrange(11, 13));
            assert(s@.subrange(i as int + 14, i as int + 16) =~= rec.subrange(14, 16));
            assert(s@.subrange(i as int + 17, i as int + 19) =~= rec.subrange(17, 19));
        }
    }
    let year = match four_digits_at(s, i) {
        Some(v) => v,
        None => {
            return None;
        },
    };
    let month = match two_digits_at(s, i + 5) {
        Some(v) => v,
        None => {
            return None;
        },
    };
    let day = match two_digits_at(s, i + 8) {
        Some(v) => v,
        None => {
            return None;
        },
    };
    let hh = match two_digits_at(s, i + 11) {
        Some(v) => v,
        None => {
            return None;
        },
    };
    let mm = match two_digits_at(s, i + 14) {
        Some(v) => v,
        None => {
            return None;
        },
    };
    let ss = match two_digits_at(s, i + 17) {
        Some(v) => v,
        None => {
            return None;
        },
    };
    if !(char_at_is(s, i + 4, '-') && char_at_is(s, i + 7, '-') && char_at_is(s, i + 10, 'T')
        && char_at_is(s, i + 13, ':') && char_at_is(s, i + 16, ':') && char_at_is(s, i + 19, 'Z'))
    {
        return None;
    }
    proof {
        if hw {
            let t = choose|t: i64|
                0 <= t <= MAX_INSTANT && s@.subrange(i as int, i as int + 20) == spec_rfc3339(
                    t as int,
                );
            let c = spec_civil_of_day(t as int / 86400);
            let secs = t as int % 86400;
            crate::text::lemma_four_digits_injective(year as int, c.year as int);
            crate::text::lemma_two_digits_injective(month as int, c.month as int);
            crate::text::lemma_two_digits_injective(day as int, c.day as int);
            crate::text::lemma_two_digits_injective(hh as int, secs / 3600);
            crate::text::lemma_two_digits_injective(mm as int, (secs % 3600) / 60);
            crate::text::lemma_two_digits_injective(ss as int, secs % 60);
        }
    }
    let date = match CalendarDate::new(year, month, day) {
        Some(d) => d,
        None => {
            return None;
        },
    };
    if !(hh < 24 && mm < 60 && ss < 60) {
        return None;
    }
    let dn: u32 = date.day_number();
    let secs: i64 = hh as i64 * 3600 + mm as i64 * 60 + ss as i64;
    let t: i64 = dn as i64 * 86400 + secs;
    proof {
        lemma_fundamental_div_mod_converse(t as int, 86400, dn as int, secs as int);
        let c = spec_civil_of_day(dn as int);
        assert(c.wf() && c.spec_day_number() == dn as int) by {
            assert(date.wf() && date.spec_day_number() == dn as int);
        }
        lemma_day_number_injective(date, c);
        lemma_fundamental_div_mod_converse(secs as int, 3600, hh as int, mm as int * 60 + ss as int);
        lemma_fundamental_div_mod_converse(
            mm as int * 60 + ss as int,
            60,
            mm as int,
            ss as int,
        );
        lemma_fundamental_div_mod_converse(secs as int, 60, hh as int * 60 + mm as int, ss as int);
        reveal_strlit("-");
        reveal_strlit("T");
        reveal_strlit(":");
        reveal_strlit("Z");
        assert(spec_rfc3339(t as int) =~= s@.subrange(i as int, i as int + 20));
    }
    Some(t)
}

/// How a rendered log line decomposes: each of its nine pieces sits in a
/// fixed place, the variable ones offset by the lengths of those before.
proof fn lemma_history_line_layout(e: HistoryEntry)
    requires
        0 <= e.timestamp <= MAX_INSTANT,
    ensures
        ({
            let line = spec_history_line(e);
            let dl = spec_decimal(e.schedule_id as int).len() as int;
            let tl = e.tool.spec_name().len() as int;
            let sl = spec_escape(e.status@).len() as int;
            &&& line.len() == 74 + dl + tl + sl
            &&& line.subrange(0, 14) == "{\"timestamp\":\""@
            &&& line.subrange(14, 34) == spec_rfc3339(e.timestamp as int)
            &&& line.subrange(34, 50) == "\",\"scheduleId\":\""@
            &&& line.subrange(50, 50 + dl) == spec_decimal(e.schedule_id as int)
            &&& line.subrange(50 + dl, 60 + dl) == "\",\"tool\":\""@
            &&& line.subrange(60 + dl, 60 + dl + tl) == e.tool.spec_name()
            &&& line.subrange(60 + dl + tl, 72 + dl + tl) == "\",\"status\":\""@
            &&& line.subrange(72 + dl + tl, 72 + dl + tl + sl) == spec_escape(e.status@)
            &&& line.subrange(72 + dl + tl + sl, 74 + dl + tl + sl) == "\"}"@
        }),
{
    lemma_rfc3339_fields(e.timestamp as int);
    reveal_strlit("{\"timestamp\":\"");
    reveal_strlit("\",\"scheduleId\":\"");
    reveal_strlit("\",\"tool\":\"");
    reveal_strlit("\",\"status\":\"");
    reveal_strlit("\"}");
    reveal_strlit("opus");
    reveal_strlit("codex");
    reveal_strlit("gemini");
    let line = spec_history_line(e);
    let dl = spec_decimal(e.schedule_id as int).len() as int;
    let tl = e.tool.spec_name().len() as int;
    let sl = spec_escape(e.status@).len() as int;
    assert(line.subrange(0, 14) =~= "{\"timestamp\":\""@);
    assert(line.subrange(14, 34) =~= spec_rfc3339(e.timestamp as int));
    assert(line.subrange(34, 50) =~= "\",\"scheduleId\":\""@);
    assert(line.subrange(50, 50 + dl) =~= spec_decimal(e.schedule_id as int));
    assert(line.subrange(50 + dl, 60 + dl) =~= "\",\"tool\":\""@);
    assert(line.subrange(60 + dl, 60 + dl + tl) =~= e.tool.spec_name());
    assert(line.subrange(60 + dl + tl, 72 + dl + tl) =~= "\",\"status\":\""@);
    assert(line.subrange(72 + dl + tl, 72 + dl + tl + sl) =~= spec_escape(e.status@));
    assert(line.subrange(72 + dl + tl + sl, 74 + dl + tl + sl) =~= "\"}"@);
}

/// Inside a rendered line's id region, every character is a digit whose
/// prefix value stays within the id.
proof fn lemma_id_region_char(w: HistoryEntry, line: Seq<char>, j: int)
    requires
        0 <= w.timestamp <= MAX_INSTANT,
        line == spec_history_line(w),
        50 <= j,
        j <= 50 + spec_decimal(w.schedule_id as int).len(),
    ensures
        j < 50 + spec_decimal(w.schedule_id as int).len() ==> spec_is_digit(line[j])
            && line.subrange(50, j + 1) == spec_decimal(w.schedule_id as int).take(j + 1 - 50)
            && spec_digits_value(line.subrange(50, j + 1)) <= w.schedule_id,
        j == 50 + spec_decimal(w.schedule_id as int).len() ==> !spec_is_digit(line[j]) && j + 10
            <= line.len(),
        line.len() > j,
{
    lemma_history_line_layout(w);
    lemma_decimal_shape(w.schedule_id as int);
    lemma_decimal_value(w.schedule_id as int);
    let dec = spec_decimal(w.schedule_id as int);
    let dl = dec.len() as int;
    reveal_strlit("\",\"tool\":\"");
    if j < 50 + dl {
        assert(line[j] == dec[j - 50]);
        assert(line.subrange(50, j + 1) =~= dec.take(j + 1 - 50));
        crate::text::lemma_digits_value_prefix(dec, j + 1 - 50);
    } else {
        assert(line[j] == "\",\"tool\":\""@[0]);
    }
}

/// At the end of a rendered line's id region the scanned value is the
/// id itself, and a leading zero means the id is the lone zero.
proof fn lemma_id_region_end(w: HistoryEntry, line: Seq<char>, j: int, v: u64)
    requires
        0 <= w.timestamp <= MAX_INSTANT,
        line == spec_history_line(w),
        j == 50 + spec_decimal(w.schedule_id as int).len(),
        v as int == spec_digits_value(line.subrange(50, j)),
    ensures
        v == w.schedule_id,
        j >= 51,
        line[50] == '0' ==> j == 51,
        line.subrange(j, j + 10) == "\",\"tool\":\""@,
        line.subrange(j + 10, j + 10 + w.tool.spec_name().len()) == w.tool.spec_name(),
        line[j + 10] == w.tool.spec_name()[0],
        j + 10 + w.tool.spec_name().len() <= line.len(),
{
    lemma_history_line_layout(w);
    lemma_decimal_shape(w.schedule_id as int);
    lemma_decimal_value(w.schedule_id as int);
    reveal_strlit("opus");
    reveal_strlit("codex");
    reveal_strlit("gemini");
    let dec = spec_decimal(w.schedule_id as int);
    assert(line.subrange(50, j) =~= dec);
    if line[50] == '0' {
        assert(dec[0] == '0');
    }
    assert(w.tool.spec_name().len() > 0);
    assert(line[j + 10] == line.subrange(j + 10, j + 10 + w.tool.spec_name().len() as int)[0]);
}

/// What the status region of a rendered line holds at one parser
/// position: when some of the status is still unread, the characters at
/// the position spell the next character's escape block; when it is all
/// read, the closing quote stands there.
proof fn lemma_status_step(w: HistoryEntry, line: Seq<char>, start: int, prefix: Seq<char>, p: int)
    requires
        0 <= w.timestamp <= MAX_INSTANT,
        line == spec_history_line(w),
        start == 72 + spec_decimal(w.schedule_id as int).len() + w.tool.spec_name().len(),
        prefix.len() <= w.status@.len(),
        prefix == w.status@.take(prefix.len() as int),
        p == start + spec_escape(prefix).len(),
    ensures
        ({
            let g = prefix.len() as int;
            let wst = w.status@;
            let sl = spec_escape(wst).len() as int;
            &&& (g < wst.len() ==> {
                let block = spec_escape_char(wst[g]);
                &&& p + block.len() <= start + sl
                &&& line[p] == block[0]
                &&& (block.len() == 2 ==> p + 1 < line.len() && line[p + 1] == block[1])
                &&& spec_escape(wst.take(g + 1)) == spec_escape(prefix) + block
            })
            &&& (g == wst.len() ==> p == start + sl && line[p] == '"' && line.len() == p + 2
                && line[p + 1] == '}')
            &&& p <= start + sl
            &&& start + sl + 2 == line.len()
        }),
{
    lemma_history_line_layout(w);
    reveal_strlit("\"}");
    let g = prefix.len() as int;
    let wst = w.status@;
    let sl = spec_escape(wst).len() as int;
    crate::text::lemma_escape_distributes(prefix, wst.skip(g));
    assert(prefix + wst.skip(g) =~= wst);
    if g < wst.len() {
        let block = spec_escape_char(wst[g]);
        assert(wst.skip(g) =~= seq![wst[g]] + wst.skip(g + 1));
        crate::text::lemma_escape_distributes(seq![wst[g]], wst.skip(g + 1));
        crate::text::lemma_escape_single(wst[g]);
        assert(spec_escape(wst) == spec_escape(prefix) + (block + spec_escape(wst.skip(g + 1))));
        assert(line[p] == spec_escape(wst)[p - start]);
        assert(spec_escape(wst)[p - start] == block[0]);
        if block.len() == 2 {
            assert(line[p + 1] == spec_escape(wst)[p + 1 - start]);
            assert(spec_escape(wst)[p + 1 - start] == block[1]);
        }
        assert(spec_escape(wst.take(g + 1)) == spec_escape(prefix) + block) by {
            assert(wst.take(g + 1) =~= prefix + seq![wst[g]]);
            crate::text::lemma_escape_distributes(prefix, seq![wst[g]]);
        }
    } else {
        assert(prefix =~= wst);
        assert(line[p] == "\"}"@[0]);
        assert(line[p + 1] == "\"}"@[1]);
    }
}

/// Parse one log line back into its entry.
///
/// Sound and complete for the writer's grammar: on success, rendering
/// the returned entry gives the input line back, character for
/// character; and whenever the line is the rendering of some entry with
/// a representable timestamp, the parse succeeds. Anything else — a
/// malformed record, an out-of-range instant, an id beyond 64 bits —
/// yields `None`, and the caller skips the line.
#[verifier::rlimit(100)]
pub fn parse_history_line(line: &str) -> (r: Option<HistoryEntry>)
    ensures
        r matches Some(e) ==> 0 <= e.timestamp <= MAX_INSTANT && line@ == spec_history_line(e),
        (exists|e: HistoryEntry| 0 <= e.timestamp <= MAX_INSTANT && line@ == spec_history_line(e))
            ==> r is Some,
{
    let ghost hw = exists|e: HistoryEntry|
        0 <= e.timestamp <= MAX_INSTANT && line@ == spec_history_line(e);
    let ghost w = choose|e: HistoryEntry|
        0 <= e.timestamp <= MAX_INSTANT && line@ == spec_history_line(e);
    let ghost dl = spec_decimal(w.schedule_id as int).len() as int;
    let ghost tl = w.tool.spec_name().len() as int;
    let ghost sl = spec_escape(w.status@).len() as int;
    let n = line.unicode_len();
    proof {
        reveal_strlit("{\"timestamp\":\"");
        reveal_strlit("\",\"scheduleId\":\"");
        reveal_strlit("\",\"tool\":\"");
        reveal_strlit("\",\"status\":\"");
        if hw {
            lemma_history_line_layout(w);
            assert(0 <= w.timestamp <= MAX_INSTANT && line@.subrange(14, 34) == spec_rfc3339(
                w.timestamp as int,
            ));
        }
    }
    if !has_lit_at(line, 0, "{\"timestamp\":\"") {
        return None;
    }
    let t = match rfc3339_at(line, 14) {
        Some(t) => t,
        None => {
            return None;
        },
    };
    if !has_lit_at(line, 34, "\",\"scheduleId\":\"") {
        return None;
    }
    // The schedule id: at least one digit, no leading zero except for a
    // lone zero, and within the 64-bit range.
    let mut j: usize = 50;
    let mut v: u64 = 0;
    while j < n && digit_at(line, j).is_some()
        invariant
            50 <= j <= n,
            n == line@.len(),
            crate::text::spec_all_digits(line@.subrange(50, j as int)),
            v as int == spec_digits_value(line@.subrange(50, j as int)),
            hw == (exists|e: HistoryEntry|
                0 <= e.timestamp <= MAX_INSTANT && line@ == spec_history_line(e)),
            hw ==> w == (choose|e: HistoryEntry|
                0 <= e.timestamp <= MAX_INSTANT && line@ == spec_history_line(e)) && dl
                == spec_decimal(w.schedule_id as int).len() && j <= 50 + dl,
        decreases n - j,
    {
        proof {
            if hw {
                lemma_id_region_char(w, line@, j as int);
            }
        }
        let d = digit_at(line, j).unwrap();
        proof {
            assert(line@.subrange(50, j as int + 1).drop_last() =~= line@.subrange(50, j as int));
            assert(line@.subrange(50, j as int + 1).last() == line@[j as int]);
        }
        let v10 = match v.checked_mul(10) {
            Some(x) => x,
            None => {
                return None;
            },
        };
        let v2 = match v10.checked_add(d as u64) {
            Some(x) => x,
            None => {
                return None;
            },
        };
        v = v2;
        j = j + 1;
    }
    proof {
        if hw {
            if j < 50 + dl {
                lemma_id_region_char(w, line@, j as int);
                assert(false);
            }
            lemma_id_region_end(w, line@, j as int, v);
        }
    }
    if j == 50 {
        return None;
    }
    if char_at_is(line, 50, '0') && j > 51 {
        return None;
    }
    proof {
        lemma_decimal_of_digits(line@.subrange(50, j as int));
    }
    if !has_lit_at(line, j, "\",\"tool\":\"") {
        return None;
    }
    let k = j + 10;
    proof {
        reveal_strlit("opus");
        reveal_strlit("codex");
        reveal_strlit("gemini");
    }
    let (tool, tool_len): (Tool, usize) = if has_lit_at(line, k, "opus") {
        (Tool::Opus, 4)
    } else if has_lit_at(line, k, "codex") {
        (Tool::Codex, 5)
    } else if has_lit_at(line, k, "gemini") {
        (Tool::Gemini, 6)
    } else {
        proof {
            if hw {
                assert(line@.subrange(k as int, k as int + tl) == w.tool.spec_name());
                assert(false);
            }
        }
        return None;
    };
    proof {
        if hw {
            assert(line@[k as int] == w.tool.spec_name()[0]);
            assert(tool == w.tool && tool_len as int == tl);
        }
    }
    let m = k + tool_len;
    if !has_lit_at(line, m, "\",\"status\":\"") {
        proof {
            if hw {
                lemma_history_line_layout(w);
                assert(line@.subrange(m as int, m as int + 12) == "\",\"status\":\""@);
            }
        }
        return None;
    }
    let start = m + 12;
    let mut p = start;
    let mut status = String::new();
    let mut closed = false;
    while p < n && !closed
        invariant
            start <= p <= n,
            start == m + 12,
            n == line@.len(),
            spec_escape(status@) =~= line@.subrange(
                start as int,
                if closed {
                    p as int - 1
                } else {
                    p as int
                },
            ),
            closed ==> p >= start + 1 && line@[p as int - 1] == '"',
            hw == (exists|e: HistoryEntry|
                0 <= e.timestamp <= MAX_INSTANT && line@ == spec_history_line(e)),
            hw ==> w == (choose|e: HistoryEntry|
                0 <= e.timestamp <= MAX_INSTANT && line@ == spec_history_line(e)) && sl
                == spec_escape(w.status@).len() && start as int == 72 + dl + tl && dl
                == spec_decimal(w.schedule_id as int).len() && tl == w.tool.spec_name().len(),
            hw ==> status@.len() <= w.status@.len() && status@ == w.status@.take(
                status@.len() as int,
            ),
            hw && closed ==> status@ == w.status@ && p as int == start as int + sl + 1,
        decreases n - p,
    {
        let ghost g = status@.len() as int;
        proof {
            if hw {
                lemma_status_step(w, line@, start as int, status@, p as int);
            }
        }
        let c = line.get_char(p);
        if c == '"' {
            proof {
                if hw {
                    assert(g == w.status@.len()) by {
                        if g < w.status@.len() {
                            assert(spec_escape_char(w.status@[g])[0] != '"');
                        }
                    }
                    assert(status@ =~= w.status@);
                }
            }
            closed = true;
            p = p + 1;
        } else if c == '\\' {
            proof {
                if hw {
                    assert(g < w.status@.len());
                    assert(spec_escape_char(w.status@[g]).len() == 2) by {
                        if !(w.status@[g] == '\\' || w.status@[g] == '"' || w.status@[g] == '\n'
                            || w.status@[g] == '\r') {
                            assert(spec_escape_char(w.status@[g])[0] == w.status@[g]);
                        }
                    }
                }
            }
            if p + 1 >= n {
                return None;
            }
            let c2 = line.get_char(p + 1);
            let ghost before = status@;
            proof {
                if hw {
                    assert(c2 == spec_escape_char(w.status@[g])[1]);
                }
            }
            if c2 == 'n' {
                proof {
                    reveal_strlit("\n");
                    if hw {
                        assert(w.status@[g] == '\n');
                    }
                }
                status.append("\n");
            } else if c2 == 'r' {
                proof {
                    reveal_strlit("\r");
                    if hw {
                        assert(w.status@[g] == '\r');
                    }
                }
                status.append("\r");
            } else if c2 == '"' {
                proof {
                    reveal_strlit("\"");
                    if hw {
                        assert(w.status@[g] == '"');
                    }
                }
                status.append("\"");
            } else if c2 == '\\' {
                proof {
                    reveal_strlit("\\");
                    if hw {
                        assert(w.status@[g] == '\\');
                    }
                }
                status.append("\\");
            } else {
                proof {
                    if hw {
                        assert(false);
                    }
                }
                return None;
            }
            proof {
                assert(status@.drop_last() =~= before);
                assert(spec_escape(status@) =~= spec_escape(before) + spec_escape_char(
                    status@.last(),
                ));
                assert(line@.subrange(start as int, p as int + 2) =~= line@.subrange(
                    start as int,
                    p as int,
                ) + seq![line@[p as int], line@[p as int + 1]]);
                if hw {
                    assert(status@ =~= w.status@.take(g + 1));
                }
            }
            p = p + 2;
        } else if c == '\n' || c == '\r' {
            proof {
                if hw {
                    if w.status@[g] == '\\' || w.status@[g] == '"' || w.status@[g] == '\n'
                        || w.status@[g] == '\r' {
                        assert(spec_escape_char(w.status@[g])[0] == '\\');
                    } else {
                        assert(spec_escape_char(w.status@[g])[0] == w.status@[g]);
                    }
                    assert(false);
                }
            }
            return None;
        } else {
            proof {
                if hw {
                    assert(w.status@[g] == c) by {
                        if w.status@[g] == '\\' || w.status@[g] == '"' || w.status@[g] == '\n'
                            || w.status@[g] == '\r' {
                            assert(spec_escape_char(w.status@[g])[0] == '\\');
                        } else {
                            assert(spec_escape_char(w.status@[g])[0] == w.status@[g]);
                        }
                    }
                }
            }
            let piece = line.substring_char(p, p + 1);
            let ghost before = status@;
            proof {
                assert(piece@ =~= seq![line@[p as int]]);
            }
            status.append(piece);
            proof {
                assert(status@.drop_last() =~= before);
                assert(spec_escape(status@) =~= spec_escape(before) + spec_escape_char(
                    status@.last(),
                ));
                assert(line@.subrange(start as int, p as int + 1) =~= line@.subrange(
                    start as int,
                    p as int,
                ) + seq![line@[p as int]]);
                if hw {
                    assert(status@ =~= w.status@.take(g + 1));
                }
            }
            p = p + 1;
        }
    }
    proof {
        if hw && !closed {
            lemma_status_step(w, line@, start as int, status@, p as int);
            assert(false);
        }
    }
    if !closed {
        return None;
    }
    let body_end = p - 1;
    proof {
        if hw {
            lemma_history_line_layout(w);
            reveal_strlit("\"}");
            assert(line@[body_end as int] == "\"}"@[0]);
            assert(line@[body_end as int + 1] == "\"}"@[1]);
        }
    }
    if !(char_at_is(line, body_end, '"') && char_at_is(line, body_end + 1, '}') && n - body_end
        == 2) {
        return None;
    }
    let entry = HistoryEntry { timestamp: t, schedule_id: v, tool, status };
    proof {
        reveal_strlit("\"}");
        assert(line@.subrange(body_end as int, n as int) =~= "\"}"@);
        assert(spec_escape(entry.status@) =~= line@.subrange(start as int, body_end as int));
        assert(line@ =~= spec_history_line(entry));
    }
    Some(entry)
}

/// Render one entry as its log line (without the trailing newline).
pub fn history_line(e: &HistoryEntry) -> (r: String)
    requires
        0 <= e.timestamp <= MAX_INSTANT,
    ensures
        r@ =~= spec_history_line(*e),
{
    let mut s = String::from_str("{\"timestamp\":\"");
    s.append(rfc3339_utc(e.timestamp).as_str());
    s.append("\",\"scheduleId\":\"");
    s.append(decimal_string(e.schedule_id).as_str());
    s.append("\",\"tool\":\"");
    s.append(e.tool.name());
    s.append("\",\"status\":\"");
    s.append(escape_applescript_string(e.status.as_str()).as_str());
    s.append("\"}");
    s
}

} // verus!
