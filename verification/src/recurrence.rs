//! The recurrence calculator: when was a schedule last due?
//!
//! `last_due` is a pure function of a schedule definition and the current
//! time. Its result is characterised exactly: it returns the latest
//! occurrence of the schedule's recurrence pattern that is not after `now`,
//! or `None` when no occurrence has happened yet.

use vstd::prelude::*;
use vstd::arithmetic::div_mod::lemma_fundamental_div_mod;
use vstd::arithmetic::div_mod::lemma_fundamental_div_mod_converse;
use vstd::arithmetic::div_mod::lemma_mod_multiples_vanish;
use crate::date::MAX_INSTANT;
use crate::date::spec_weekday_of_day;
use crate::date::weekday_of_day;
use crate::schedule::Schedule;
use crate::schedule::ScheduleType;

verus! {

/// The instant (seconds since the epoch) of minute `mod_minutes` of day
/// number `day`.
pub open spec fn instant_of(day: int, mod_minutes: int) -> int {
    day * 86400 + mod_minutes * 60
}

/// The day number an instant falls on, for nonnegative instants.
pub open spec fn day_of_instant(t: int) -> int {
    t / 86400
}

/// True when the schedule's pattern fires on day number `d`.
///
/// Daily schedules fire every day; weekly schedules on every day with the
/// start date's weekday; interval schedules on every `intervalDays`-th day
/// counted from the start date; one-shot schedules on the start date alone.
pub open spec fn spec_occurs_on_day(s: Schedule, d: int) -> bool {
    match s.schedule_type {
        ScheduleType::Daily => true,
        ScheduleType::Weekly => spec_weekday_of_day(d) == spec_weekday_of_day(s.spec_start_day()),
        ScheduleType::Interval => d >= s.spec_start_day() && (d - s.spec_start_day()) % (
        s.interval_days.unwrap() as int) == 0,
        ScheduleType::Once => d == s.spec_start_day(),
    }
}

/// True when instant `t` is an occurrence of the schedule: the schedule's
/// execution time of day, on a day its pattern fires on.
pub open spec fn spec_occurrence_at(s: Schedule, t: int) -> bool {
    exists|d: int|
        spec_occurs_on_day(s, d) && t == instant_of(d, s.execution_time.spec_minute_of_day())
}

/// The last due occurrence of `s` at time `now`, following the calculation
/// rule for each recurrence kind. `lemma_last_due_latest_occurrence` shows
/// that this picks exactly the latest occurrence that is not after `now`.
pub open spec fn spec_last_due(s: Schedule, now: int) -> Option<int> {
    let md = s.execution_time.spec_minute_of_day();
    let today = day_of_instant(now);
    match s.schedule_type {
        ScheduleType::Daily => {
            let c = instant_of(today, md);
            if c <= now {
                Some(c)
            } else {
                Some(c - 86400)
            }
        },
        ScheduleType::Weekly => {
            let back = (spec_weekday_of_day(today) - spec_weekday_of_day(s.spec_start_day())) % 7;
            let c = instant_of(today - back, md);
            if c <= now {
                Some(c)
            } else {
                Some(c - 7 * 86400)
            }
        },
        ScheduleType::Interval => {
            let st = s.spec_start_day();
            let k = s.interval_days.unwrap() as int;
            if today < st {
                None
            } else {
                let off = (today - st) - (today - st) % k;
                let c = instant_of(st + off, md);
                if c <= now {
                    Some(c)
                } else if off < k {
                    None
                } else {
                    Some(instant_of(st + off - k, md))
                }
            }
        },
        ScheduleType::Once => {
            let c = instant_of(s.spec_start_day(), md);
            if c <= now {
                Some(c)
            } else {
                None
            }
        },
    }
}

/// Compute the schedule's last due occurrence at `now`.
///
/// Returns the latest occurrence of the schedule's pattern that is not
/// after `now`, and `None` exactly when every occurrence lies after `now`
/// (an interval cycle not yet started, or a future one-shot).
pub fn last_due(s: &Schedule, now: i64) -> (r: Option<i64>)
    requires
        s.wf(),
        0 <= now <= MAX_INSTANT,
    ensures
        r matches Some(t) ==> spec_last_due(*s, now as int) == Some(t as int),
        r is None <==> spec_last_due(*s, now as int) is None,
        r matches Some(t) ==> spec_occurrence_at(*s, t as int) && t <= now && (forall|u: int|
            spec_occurrence_at(*s, u) && u <= now ==> u <= t),
        r is None ==> (forall|u: int| spec_occurrence_at(*s, u) ==> u > now),
{
    proof {
        lemma_last_due_latest_occurrence(*s, now as int);
        lemma_fundamental_div_mod(now as int, 86400);
    }
    let md: i64 = s.execution_time.minute_of_day() as i64;
    let today_u: u64 = (now as u64) / 86400;
    let today: i64 = today_u as i64;
    match s.schedule_type {
        ScheduleType::Daily => {
            let c: i64 = today * 86400 + md * 60;
            if c <= now {
                Some(c)
            } else {
                Some(c - 86400)
            }
        },
        ScheduleType::Weekly => {
            let start_day: u32 = s.start_date.as_ref().unwrap().day_number();
            let wd_today: u8 = weekday_of_day(today_u as u32);
            let wd_start: u8 = weekday_of_day(start_day);
            let back: i64 = ((wd_today as u64 + 7 - wd_start as u64) % 7) as i64;
            proof {
                lemma_mod_multiples_vanish(
                    1,
                    spec_weekday_of_day(today as int) - spec_weekday_of_day(s.spec_start_day()),
                    7,
                );
            }
            let c: i64 = (today - back) * 86400 + md * 60;
            if c <= now {
                Some(c)
            } else {
                Some(c - 7 * 86400)
            }
        },
        ScheduleType::Interval => {
            let st: u64 = s.start_date.as_ref().unwrap().day_number() as u64;
            let k: u64 = *s.interval_days.as_ref().unwrap() as u64;
            if today_u < st {
                None
            } else {
                let ds: u64 = today_u - st;
                let off: u64 = ds - ds % k;
                let c: i64 = ((st + off) * 86400) as i64 + md * 60;
                if c <= now {
                    Some(c)
                } else if off < k {
                    None
                } else {
                    Some(((st + off - k) * 86400) as i64 + md * 60)
                }
            }
        },
        ScheduleType::Once => {
            let st: i64 = s.start_date.as_ref().unwrap().day_number() as i64;
            let c: i64 = st * 86400 + md * 60;
            if c <= now {
                Some(c)
            } else {
                None
            }
        },
    }
}

/// The next instant strictly after `now` at which the given time of day
/// comes around: today's occurrence when it is still ahead, else
/// tomorrow's. This is the instant an immediate execution ordered for
/// that time waits for.
pub fn next_time_occurrence(now: i64, time: &crate::clock::ClockTime) -> (r: i64)
    requires
        time.wf(),
        0 <= now <= MAX_INSTANT,
    ensures
        r > now,
        r <= now + 86400,
        r as int % 86400 == time.spec_minute_of_day() * 60,
        forall|u: int|
            u > now && #[trigger] (u % 86400) == time.spec_minute_of_day() * 60 ==> u >= r,
{
    proof {
        lemma_fundamental_div_mod(now as int, 86400);
    }
    let md: i64 = time.minute_of_day() as i64 * 60;
    let today: i64 = ((now as u64) / 86400) as i64;
    let c: i64 = today * 86400 + md;
    let r: i64 = if c > now {
        c
    } else {
        c + 86400
    };
    proof {
        let q = now as int / 86400;
        if c > now {
            lemma_fundamental_div_mod_converse(r as int, 86400, q, md as int);
        } else {
            lemma_fundamental_div_mod_converse(r as int, 86400, q + 1, md as int);
        }
        assert forall|u: int|
            u > now && #[trigger] (u % 86400) == time.spec_minute_of_day() * 60 implies u
            >= r by {
            lemma_fundamental_div_mod(u, 86400);
            let qu = u / 86400;
            if u < r {
                if c > now {
                    assert(86400 * qu + md < 86400 * q + md);
                    assert(qu < q) by (nonlinear_arith)
                        requires
                            86400 * qu < 86400 * q,
                    ;
                    assert(86400 * qu + 86400 <= 86400 * q) by (nonlinear_arith)
                        requires
                            qu + 1 <= q,
                    ;
                } else {
                    assert(86400 * qu + md < 86400 * (q + 1) + md);
                    assert(qu < q + 1) by (nonlinear_arith)
                        requires
                            86400 * qu < 86400 * (q + 1),
                    ;
                    assert(86400 * qu <= 86400 * q) by (nonlinear_arith)
                        requires
                            qu <= q,
                    ;
                    assert(u <= 86400 * q + md);
                    assert(now >= 86400 * q + md);
                }
            }
        }
    }
    r
}

/// Two days have the same weekday exactly when they are a whole number of
/// weeks apart.
pub proof fn lemma_weekday_eq_iff_aligned(a: int, b: int)
    ensures
        spec_weekday_of_day(a) == spec_weekday_of_day(b) <==> (a - b) % 7 == 0,
{
    lemma_weekday_sub_mod(a, b);
    if spec_weekday_of_day(a) == spec_weekday_of_day(b) {
        assert((0int) % 7 == 0);
    }
    if (a - b) % 7 == 0 {
        let wa = spec_weekday_of_day(a);
        let wb = spec_weekday_of_day(b);
        assert((wa - wb) % 7 == 0);
        assert(0 <= wa < 7 && 0 <= wb < 7);
        if wa != wb {
            lemma_fundamental_div_mod(wa - wb, 7);
            assert(wa - wb == 7 * ((wa - wb) / 7));
            assert(-7 < wa - wb < 7);
            assert((wa - wb) / 7 == 0) by (nonlinear_arith)
                requires
                    wa - wb == 7 * ((wa - wb) / 7),
                    -7 < wa - wb < 7,
            ;
        }
    }
}

/// The difference of two weekday values agrees, modulo 7, with the
/// difference of the day numbers.
proof fn lemma_weekday_sub_mod(a: int, b: int)
    ensures
        (spec_weekday_of_day(a) - spec_weekday_of_day(b)) % 7 == (a - b) % 7,
{
    lemma_fundamental_div_mod(a + 4, 7);
    lemma_fundamental_div_mod(b + 4, 7);
    let qa = (a + 4) / 7;
    let qb = (b + 4) / 7;
    let wa = spec_weekday_of_day(a);
    let wb = spec_weekday_of_day(b);
    assert(7 * qa - 7 * qb == 7 * (qa - qb)) by (nonlinear_arith);
    assert(a - b == 7 * (qa - qb) + (wa - wb));
    lemma_mod_multiples_vanish(qa - qb, wa - wb, 7);
}

/// Days on which an aligned pattern fires are at least one stride apart:
/// if `a` and `b` both lie on the grid anchored at `anchor` with stride
/// `p`, and `a < b`, then they differ by at least `p`.
proof fn lemma_aligned_gap(anchor: int, p: int, a: int, b: int)
    requires
        p >= 1,
        (a - anchor) % p == 0,
        (b - anchor) % p == 0,
        a < b,
    ensures
        b - a >= p,
{
    lemma_fundamental_div_mod(a - anchor, p);
    lemma_fundamental_div_mod(b - anchor, p);
    let qa = (a - anchor) / p;
    let qb = (b - anchor) / p;
    assert(p * qb - p * qa == p * (qb - qa)) by (nonlinear_arith);
    assert(b - a == p * (qb - qa));
    assert(qb - qa >= 1) by (nonlinear_arith)
        requires
            p >= 1,
            p * (qb - qa) > 0,
    ;
    assert(p * (qb - qa) >= p) by (nonlinear_arith)
        requires
            p >= 1,
            qb - qa >= 1,
    ;
}

/// If day `d_star` lies on the grid, its occurrence is not after `now`,
/// and the occurrence one stride later is after `now`, then no occurrence
/// that is not after `now` lies beyond `d_star`'s.
proof fn lemma_latest_on_grid(s: Schedule, anchor: int, p: int, d_star: int, now: int)
    requires
        s.wf(),
        p >= 1,
        (d_star - anchor) % p == 0,
        forall|d: int| #[trigger] spec_occurs_on_day(s, d) ==> (d - anchor) % p == 0,
        instant_of(d_star, s.execution_time.spec_minute_of_day()) <= now,
        instant_of(d_star + p, s.execution_time.spec_minute_of_day()) > now,
    ensures
        forall|u: int|
            spec_occurrence_at(s, u) && u <= now ==> u <= instant_of(
                d_star,
                s.execution_time.spec_minute_of_day(),
            ),
{
    let md = s.execution_time.spec_minute_of_day();
    let t_star = instant_of(d_star, md);
    assert forall|u: int| spec_occurrence_at(s, u) && u <= now implies u <= t_star by {
        let d = choose|d: int| spec_occurs_on_day(s, d) && u == instant_of(d, md);
        if d > d_star {
            lemma_aligned_gap(anchor, p, d_star, d);
        }
    }
}

/// The central theorem of the calculator: `spec_last_due` returns the
/// latest occurrence of the schedule that is not after `now`, and `None`
/// exactly when every occurrence lies after `now`.
pub proof fn lemma_last_due_latest_occurrence(s: Schedule, now: int)
    requires
        s.wf(),
        0 <= now,
    ensures
        spec_last_due(s, now) matches Some(t) ==> spec_occurrence_at(s, t) && t <= now && (forall|
            u: int,
        |
            spec_occurrence_at(s, u) && u <= now ==> u <= t),
        spec_last_due(s, now) is None ==> (forall|u: int| spec_occurrence_at(s, u) ==> u > now),
{
    let md = s.execution_time.spec_minute_of_day();
    let today = day_of_instant(now);
    lemma_fundamental_div_mod(now, 86400);
    match s.schedule_type {
        ScheduleType::Daily => {
            lemma_last_due_daily(s, now);
        },
        ScheduleType::Weekly => {
            lemma_last_due_weekly(s, now);
        },
        ScheduleType::Interval => {
            lemma_last_due_interval(s, now);
        },
        ScheduleType::Once => {
            let st = s.spec_start_day();
            let c = instant_of(st, md);
            if c <= now {
                assert(spec_occurs_on_day(s, st) && c == instant_of(st, md));
                assert(spec_occurrence_at(s, c));
                assert forall|u: int| spec_occurrence_at(s, u) && u <= now implies u <= c by {
                    let d = choose|d: int| spec_occurs_on_day(s, d) && u == instant_of(d, md);
                    assert(d == st);
                }
            } else {
                assert forall|u: int| spec_occurrence_at(s, u) implies u > now by {
                    let d = choose|d: int| spec_occurs_on_day(s, d) && u == instant_of(d, md);
                    assert(d == st);
                }
            }
        },
    }
}

proof fn lemma_last_due_daily(s: Schedule, now: int)
    requires
        s.wf(),
        0 <= now,
        s.schedule_type is Daily,
    ensures
        spec_last_due(s, now) matches Some(t) ==> spec_occurrence_at(s, t) && t <= now && (forall|
            u: int,
        |
            spec_occurrence_at(s, u) && u <= now ==> u <= t),
{
    let md = s.execution_time.spec_minute_of_day();
    let today = day_of_instant(now);
    lemma_fundamental_div_mod(now, 86400);
    let c = instant_of(today, md);
    let d_star: int = if c <= now {
        today
    } else {
        today - 1
    };
    let t_star = instant_of(d_star, md);
    assert(spec_occurs_on_day(s, d_star) && t_star == instant_of(d_star, md));
    assert(spec_occurrence_at(s, t_star));
    assert(t_star <= now);
    assert(instant_of(d_star + 1, md) > now);
    assert(forall|d: int| #[trigger] spec_occurs_on_day(s, d) ==> (d - 0) % 1 == 0) by {
        assert forall|x: int| #[trigger] (x % 1) == 0 by {
            lemma_fundamental_div_mod(x, 1);
        }
    }
    lemma_latest_on_grid(s, 0, 1, d_star, now);
}

proof fn lemma_last_due_weekly(s: Schedule, now: int)
    requires
        s.wf(),
        0 <= now,
        s.schedule_type is Weekly,
    ensures
        spec_last_due(s, now) matches Some(t) ==> spec_occurrence_at(s, t) && t <= now && (forall|
            u: int,
        |
            spec_occurrence_at(s, u) && u <= now ==> u <= t),
{
    let md = s.execution_time.spec_minute_of_day();
    let today = day_of_instant(now);
    let st = s.spec_start_day();
    lemma_fundamental_div_mod(now, 86400);
    let back = (spec_weekday_of_day(today) - spec_weekday_of_day(st)) % 7;
    assert(0 <= back < 7);
    let c = instant_of(today - back, md);
    let d_star: int = if c <= now {
        today - back
    } else {
        today - back - 7
    };
    let t_star = instant_of(d_star, md);

    // today - back has the start date's weekday.
    assert((today - back - st) % 7 == 0) by {
        lemma_weekday_sub_mod(today, st);
        assert((today - st) % 7 == back);
        lemma_fundamental_div_mod(today - st, 7);
        assert(today - back - st == 7 * ((today - st) / 7));
        lemma_mod_multiples_vanish((today - st) / 7, 0, 7);
    }
    assert((d_star - st) % 7 == 0) by {
        if c > now {
            assert(d_star - st == 7 * (-1) + (today - back - st));
            lemma_mod_multiples_vanish(-1, today - back - st, 7);
        }
    }
    lemma_weekday_eq_iff_aligned(d_star, st);
    assert(spec_occurs_on_day(s, d_star) && t_star == instant_of(d_star, md));
    assert(spec_occurrence_at(s, t_star));

    // t_star <= now < the occurrence one week after t_star.
    assert(t_star <= now);
    assert(instant_of(d_star + 7, md) > now);

    // every pattern day is aligned to the start day with stride 7.
    assert forall|d: int| #[trigger] spec_occurs_on_day(s, d) implies (d - st) % 7 == 0 by {
        lemma_weekday_eq_iff_aligned(d, st);
    }
    lemma_latest_on_grid(s, st, 7, d_star, now);
}

/// An occurrence instant falls on the day it was built from.
pub proof fn lemma_day_of_occurrence(d: int, md: int)
    requires
        0 <= md < 1440,
    ensures
        day_of_instant(instant_of(d, md)) == d,
{
    lemma_fundamental_div_mod_converse(instant_of(d, md), 86400, d, md * 60);
}

/// Law of daily schedules: the last due occurrence is never after `now`,
/// and the occurrence one day later is the earliest occurrence after
/// `now`.
pub proof fn lemma_daily_due_bracket(s: Schedule, now: int)
    requires
        s.wf(),
        s.schedule_type is Daily,
        0 <= now,
    ensures
        spec_last_due(s, now) is Some,
        ({
            let t = spec_last_due(s, now).unwrap();
            &&& t <= now
            &&& spec_occurrence_at(s, t + 86400)
            &&& t + 86400 > now
            &&& forall|u: int| spec_occurrence_at(s, u) && u > now ==> u >= t + 86400
        }),
{
    lemma_last_due_latest_occurrence(s, now);
    let md = s.execution_time.spec_minute_of_day();
    let t = spec_last_due(s, now).unwrap();
    let dt = choose|d: int| spec_occurs_on_day(s, d) && t == instant_of(d, md);
    assert(spec_occurs_on_day(s, dt + 1) && t + 86400 == instant_of(dt + 1, md));
    assert(spec_occurrence_at(s, t + 86400));
    assert(t + 86400 > now);
    assert forall|u: int| spec_occurrence_at(s, u) && u > now implies u >= t + 86400 by {
        let d = choose|d: int| spec_occurs_on_day(s, d) && u == instant_of(d, md);
        assert(d > dt);
    }
}

/// Law of weekly schedules: the last due occurrence falls on the start
/// date's weekday, whatever `now` is.
pub proof fn lemma_weekly_due_weekday(s: Schedule, now: int)
    requires
        s.wf(),
        s.schedule_type is Weekly,
        0 <= now,
    ensures
        spec_last_due(s, now) is Some,
        spec_weekday_of_day(day_of_instant(spec_last_due(s, now).unwrap()))
            == spec_weekday_of_day(s.spec_start_day()),
{
    lemma_last_due_latest_occurrence(s, now);
    let md = s.execution_time.spec_minute_of_day();
    let t = spec_last_due(s, now).unwrap();
    let dt = choose|d: int| spec_occurs_on_day(s, d) && t == instant_of(d, md);
    lemma_day_of_occurrence(dt, md);
}

/// Law of interval schedules: when a last due occurrence exists, its day
/// lies a whole number of intervals from the start date, it is not after
/// `now`, and the occurrence one interval later is after `now`.
pub proof fn lemma_interval_due_bracket(s: Schedule, now: int)
    requires
        s.wf(),
        s.schedule_type is Interval,
        0 <= now,
        spec_last_due(s, now) is Some,
    ensures
        ({
            let t = spec_last_due(s, now).unwrap();
            let k = s.interval_days.unwrap() as int;
            &&& (day_of_instant(t) - s.spec_start_day()) % k == 0
            &&& t <= now
            &&& t + k * 86400 > now
        }),
{
    lemma_last_due_latest_occurrence(s, now);
    let md = s.execution_time.spec_minute_of_day();
    let k = s.interval_days.unwrap() as int;
    let t = spec_last_due(s, now).unwrap();
    let dt = choose|d: int| spec_occurs_on_day(s, d) && t == instant_of(d, md);
    lemma_day_of_occurrence(dt, md);
    assert(spec_occurs_on_day(s, dt + k)) by {
        assert(dt + k - s.spec_start_day() == k * 1 + (dt - s.spec_start_day()));
        lemma_mod_multiples_vanish(1, dt - s.spec_start_day(), k);
    }
    assert(t + k * 86400 == instant_of(dt + k, md)) by (nonlinear_arith)
        requires
            t == instant_of(dt, md),
            instant_of(dt, md) == dt * 86400 + md * 60,
            instant_of(dt + k, md) == (dt + k) * 86400 + md * 60,
    ;
    assert(spec_occurrence_at(s, t + k * 86400));
    if t + k * 86400 <= now {
        assert(t + k * 86400 <= t);
        assert(k * 86400 >= 86400) by (nonlinear_arith)
            requires
                k >= 1,
        ;
    }
}

/// The last due occurrence only moves forward as `now` advances: at a
/// later `now` it is still defined and not earlier.
pub proof fn lemma_last_due_monotone(s: Schedule, now1: int, now2: int)
    requires
        s.wf(),
        0 <= now1 <= now2,
    ensures
        spec_last_due(s, now1) is Some ==> spec_last_due(s, now2) is Some
            && spec_last_due(s, now1).unwrap() <= spec_last_due(s, now2).unwrap(),
{
    lemma_last_due_latest_occurrence(s, now1);
    lemma_last_due_latest_occurrence(s, now2);
    if spec_last_due(s, now1) is Some {
        let t1 = spec_last_due(s, now1).unwrap();
        assert(spec_occurrence_at(s, t1) && t1 <= now2);
    }
}

proof fn lemma_last_due_interval(s: Schedule, now: int)
    requires
        s.wf(),
        0 <= now,
        s.schedule_type is Interval,
    ensures
        spec_last_due(s, now) matches Some(t) ==> spec_occurrence_at(s, t) && t <= now && (forall|
            u: int,
        |
            spec_occurrence_at(s, u) && u <= now ==> u <= t),
        spec_last_due(s, now) is None ==> (forall|u: int| spec_occurrence_at(s, u) ==> u > now),
{
    let md = s.execution_time.spec_minute_of_day();
    let today = day_of_instant(now);
    let st = s.spec_start_day();
    let k = s.interval_days.unwrap() as int;
    lemma_fundamental_div_mod(now, 86400);
    if today < st {
        // the cycle has not started: every occurrence is on day st or
        // later, and even day st's occurrence lies after now.
        assert forall|u: int| spec_occurrence_at(s, u) implies u > now by {
            let d = choose|d: int| spec_occurs_on_day(s, d) && u == instant_of(d, md);
            assert(d >= st >= today + 1);
        }
    } else {
        let ds = today - st;
        lemma_fundamental_div_mod(ds, k);
        let off = ds - ds % k;
        assert(0 <= ds % k < k);
        assert(off == k * (ds / k));
        assert((off - 0) % k == 0) by {
            lemma_mod_multiples_vanish(ds / k, 0, k);
        }
        let c = instant_of(st + off, md);
        assert(spec_occurs_on_day(s, st + off));
        if c <= now {
            assert(spec_occurrence_at(s, c));
            assert(instant_of(st + off + k, md) > now);
            lemma_latest_on_grid(s, st, k, st + off, now);
        } else if off < k {
            // off == 0: the first occurrence of the cycle is already
            // after now, and every other occurrence is later still.
            assert(off == 0) by {
                assert(off == k * (ds / k));
                assert(ds / k >= 0) by (nonlinear_arith)
                    requires
                        k >= 1,
                        ds >= 0,
                        ds == k * (ds / k) + ds % k,
                        0 <= ds % k < k,
                ;
                assert(ds / k == 0) by (nonlinear_arith)
                    requires
                        k >= 1,
                        off == k * (ds / k),
                        off < k,
                        ds / k >= 0,
                ;
            }
            assert forall|u: int| spec_occurrence_at(s, u) implies u > now by {
                let d = choose|d: int| spec_occurs_on_day(s, d) && u == instant_of(d, md);
                assert(d >= st);
            }
        } else {
            let t_star = instant_of(st + off - k, md);
            assert((st + off - k - st) % k == 0) by {
                assert(off - k == k * (ds / k - 1)) by (nonlinear_arith)
                    requires
                        off == k * (ds / k),
                ;
                lemma_mod_multiples_vanish(ds / k - 1, 0, k);
            }
            assert(spec_occurs_on_day(s, st + off - k) && t_star == instant_of(st + off - k, md));
            assert(spec_occurrence_at(s, t_star));
            assert(st + off - k <= today - 1);
            assert(t_star <= now);
            assert(instant_of(st + off, md) > now);
            lemma_latest_on_grid(s, st, k, st + off - k, now);
        }
    }
}

} // verus!
