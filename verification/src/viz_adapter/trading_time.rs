//! Trading hours: the market session and its length.

use vstd::prelude::*;
use crate::calendar::{civil_from_days, first_year, last_year, weekday_from_days};
use chrono::Datelike;
use chrono::Timelike;
use std::collections::HashMap;

verus! {

/// Market hours definition
pub struct MarketHours {
    pub open_hour: u32,
    pub open_minute: u32,
    pub close_hour: u32,
    pub close_minute: u32,
}

impl Default for MarketHours {
    /// The regular US session, 9:30 to 16:00.
    fn default() -> (h: Self)
        ensures
            h.open_hour == 9 && h.open_minute == 30 && h.close_hour == 16 && h.close_minute == 0,
    {
        MarketHours { open_hour: 9, open_minute: 30, close_hour: 16, close_minute: 0 }
    }
}

/// Minutes from midnight to the opening.
pub open spec fn open_minutes(h: MarketHours) -> int {
    h.open_hour * 60 + h.open_minute
}

/// Minutes from midnight to the close.
pub open spec fn close_minutes(h: MarketHours) -> int {
    h.close_hour * 60 + h.close_minute
}

/// A time of day (hour and minute) lies in the session: from the opening
/// up to, not including, the close.
pub fn within_session(hours: &MarketHours, hour: u32, minute: u32) -> (b: bool)
    requires
        close_minutes(*hours) <= u32::MAX,
        open_minutes(*hours) <= u32::MAX,
        hour * 60 + minute <= u32::MAX,
    ensures
        b == (open_minutes(*hours) <= hour * 60 + minute < close_minutes(*hours)),
{
    let open = hours.open_hour * 60 + hours.open_minute;
    let close = hours.close_hour * 60 + hours.close_minute;
    let current = hour * 60 + minute;
    current >= open && current < close
}

/// Trading hours mapper for intraday compression
pub struct TradingHoursMapper {
    hours: MarketHours,
    session_duration: i64,
}

impl TradingHoursMapper {
    /// Create a mapper for `hours`; the session length is taken in seconds.
    pub fn new(hours: MarketHours) -> (m: Self)
        requires
            open_minutes(hours) <= close_minutes(hours) <= u32::MAX,
        ensures
            m.hours_view() == hours,
            m.spec_session_duration() == (close_minutes(hours) - open_minutes(hours)) * 60,
    {
        let session_duration = ((hours.close_hour * 60 + hours.close_minute) - (hours.open_hour * 60
            + hours.open_minute)) as i64 * 60;
        TradingHoursMapper { hours, session_duration }
    }

    pub closed spec fn hours_view(&self) -> MarketHours {
        self.hours
    }

    pub closed spec fn spec_session_duration(&self) -> int {
        self.session_duration as int
    }

    /// The market hours.
    pub fn hours(&self) -> (h: &MarketHours)
        ensures
            *h == self.hours_view(),
    {
        &self.hours
    }

    /// The session length in seconds.
    pub fn session_duration(&self) -> (d: i64)
        ensures
            d == self.spec_session_duration(),
    {
        self.session_duration
    }
}

/// The UTC calendar day of the instant `ts` (seconds since the Unix epoch):
/// year, month, day and weekday (days from Monday); `None` when its year
/// lies outside the range of calendar dates.
pub open spec fn utc_calendar(ts: i64) -> Option<(i32, u32, u32, u32)> {
    let z = ts as int / 86400;
    let (y, m, d) = civil_from_days(z);
    if first_year() <= y <= last_year() {
        Some((y as i32, m as u32, d as u32, weekday_from_days(z) as u32))
    } else {
        None
    }
}

/// chrono's `DateTime::<Utc>::from_timestamp(ts, 0)`, read as a calendar
/// day. Claimed, as chrono's source shows: the instant is accepted exactly
/// when the day it falls on has a year in chrono's range (-262143 through
/// 262142), and the day is the proleptic Gregorian date that many whole days
/// (rounded down) after 1970-01-01, a Thursday.
#[verifier::external_body]
fn utc_calendar_of(ts: i64) -> (r: Option<(i32, u32, u32, u32)>)
    ensures
        r == utc_calendar(ts),
{
    match chrono::DateTime::<chrono::Utc>::from_timestamp(ts, 0) {
        Some(dt) => {
            let d = dt.date_naive();
            Some((d.year(), d.month(), d.day(), d.weekday().num_days_from_monday()))
        },
        None => None,
    }
}

/// A weekday other than Saturday and Sunday that is not one of the listed
/// holidays (New Year's Day, Independence Day, Christmas).
pub open spec fn spec_is_trading_day(month: u32, day: u32, weekday: u32) -> bool {
    &&& weekday != 5 && weekday != 6
    &&& !(month == 1 && day == 1)
    &&& !(month == 7 && day == 4)
    &&& !(month == 12 && day == 25)
}

/// Trading days are the weekdays Monday through Friday other than New
/// Year's Day (January 1), Independence Day (July 4) and Christmas
/// (December 25): none of those three is a trading day on any weekday, no
/// Saturday or Sunday is, and every other Monday to Friday is.
pub proof fn lemma_trading_days(month: u32, day: u32, weekday: u32)
    requires
        weekday < 7,
    ensures
        spec_is_trading_day(month, day, weekday) <==> (weekday < 5 && !(month == 1 && day == 1) && !(month == 7
            && day == 4) && !(month == 12 && day == 25)),
        (month == 1 && day == 1) || (month == 7 && day == 4) || (month == 12 && day == 25) ==> !spec_is_trading_day(
            month,
            day,
            weekday,
        ),
{
}

/// Check if a given day (month, day of month, weekday counted from Monday)
/// is a trading day
pub fn is_trading_day(month: u32, day: u32, weekday: u32) -> (b: bool)
    ensures
        b == spec_is_trading_day(month, day, weekday),
        weekday < 7 ==> (b <==> weekday < 5 && !(month == 1 && day == 1) && !(month == 7 && day == 4) && !(
        month == 12 && day == 25)),
{
    if weekday == 5 || weekday == 6 {
        return false;
    }
    !((month == 1 && day == 1) || (month == 7 && day == 4) || (month == 12 && day == 25))
}

/// The New York wall-clock reading of the instant `ts` (seconds since the
/// Unix epoch) as chrono and chrono-tz compute it: month, day, weekday (days
/// from Monday), hour and minute; `None` when the instant is out of chrono's
/// range.
pub uninterp spec fn new_york_clock(ts: i64) -> Option<(u32, u32, u32, u32, u32)>;

/// chrono's `DateTime::<Utc>::from_timestamp(ts, 0)` moved to the
/// `America/New_York` zone of chrono-tz, read as calendar day and time of
/// day through the `Datelike` and `Timelike` methods of the zoned `DateTime`
/// (which do not check the local date's range, so no instant makes them
/// panic). Claimed: the reading depends on `ts` alone, and, as chrono's
/// `Timelike` documents, the hour lies in 0..24 and the minute in 0..60.
#[verifier::external_body]
fn new_york_clock_of(ts: i64) -> (r: Option<(u32, u32, u32, u32, u32)>)
    ensures
        r == new_york_clock(ts),
        r matches Some((_, _, _, h, mi)) ==> h < 24 && mi < 60,
{
    match chrono::DateTime::<chrono::Utc>::from_timestamp(ts, 0) {
        Some(dt) => {
            let local = dt.with_timezone(&chrono_tz::America::New_York);
            Some((local.month(), local.day(), local.weekday().num_days_from_monday(), local.hour(), local.minute()))
        },
        None => None,
    }
}

/// Whether the instant `ts` lies in the session of `hours` on a New York
/// trading day; `None` when the instant is out of chrono's range.
pub open spec fn spec_trading_hours(ts: i64, hours: MarketHours) -> Option<bool> {
    match new_york_clock(ts) {
        Some((m, d, w, h, mi)) => Some(
            spec_is_trading_day(m, d, w) && open_minutes(hours) <= h * 60 + mi < close_minutes(hours),
        ),
        None => None,
    }
}

/// The session times of `hours` fit in a `u32` of minutes.
pub open spec fn session_fits(hours: MarketHours) -> bool {
    open_minutes(hours) <= u32::MAX && close_minutes(hours) <= u32::MAX
}

fn trading_hours_at(timestamp: i64, hours: &MarketHours) -> (r: Option<bool>)
    requires
        session_fits(*hours),
    ensures
        r == spec_trading_hours(timestamp, *hours),
{
    match new_york_clock_of(timestamp) {
        Some((month, day, weekday, hour, minute)) => {
            if !is_trading_day(month, day, weekday) {
                return Some(false);
            }
            Some(within_session(hours, hour, minute))
        },
        None => None,
    }
}

/// An instant counts as trading hours only on a New York weekday that is
/// none of January 1, July 4 and December 25, and only within the session.
pub proof fn lemma_trading_hours_days(ts: i64, hours: MarketHours)
    ensures
        spec_trading_hours(ts, hours) == Some(true) ==> (new_york_clock(ts) matches Some((m, d, w, h, mi)) && w
            != 5 && w != 6 && !(m == 1 && d == 1) && !(m == 7 && d == 4) && !(m == 12 && d == 25) && open_minutes(
            hours,
        ) <= h * 60 + mi < close_minutes(hours)),
{
}

/// Check if a timestamp (seconds) falls within trading hours: on a trading
/// day and inside the session, both in New York time.
pub fn is_trading_hours(timestamp: i64, hours: &MarketHours) -> (b: bool)
    requires
        new_york_clock(timestamp) is Some,
        session_fits(*hours),
    ensures
        spec_trading_hours(timestamp, *hours) == Some(b),
        b ==> (new_york_clock(timestamp) matches Some((m, d, w, _, _)) && w != 5 && w != 6 && !(m == 1 && d == 1)
            && !(m == 7 && d == 4) && !(m == 12 && d == 25)),
{
    proof {
        lemma_trading_hours_days(timestamp, *hours);
    }
    match trading_hours_at(timestamp, hours) {
        Some(b) => b,
        None => false,
    }
}

/// Whether a timestamp (seconds) falls within trading hours, or `None` when
/// the instant is out of range.
pub fn try_is_trading_hours(timestamp: i64, hours: &MarketHours) -> (r: Option<bool>)
    requires
        session_fits(*hours),
    ensures
        r == spec_trading_hours(timestamp, *hours),
{
    match trading_hours_at(timestamp, hours) {
        Some(_) => Some(is_trading_hours(timestamp, hours)),
        None => None,
    }
}

/// The instant `ts` falls on a trading day.
pub open spec fn trading_instant(ts: i64) -> bool {
    utc_calendar(ts) matches Some((_, m, d, w)) && spec_is_trading_day(m, d, w)
}

/// The trading days among the first `n` days from `start`, a day
/// (86400 seconds) apart.
pub open spec fn spec_trading_days(start: int, n: int) -> Seq<i64>
    decreases n,
{
    if n <= 0 {
        Seq::empty()
    } else {
        let rest = spec_trading_days(start, n - 1);
        let t = start + (n - 1) * 86400;
        if trading_instant(t as i64) {
            rest.push(t as i64)
        } else {
            rest
        }
    }
}

/// The number of days from `start` up to `end`.
pub open spec fn day_count(start: int, end: int) -> int {
    if end >= start {
        (end - start) / 86400 + 1
    } else {
        0
    }
}

/// Every day from `start` up to `end` is within chrono's range, and the
/// step after `end` does not overflow (nothing is asked of an empty span).
pub open spec fn days_in_range(start: i64, end: i64) -> bool {
    &&& start <= end ==> end <= i64::MAX - 86400
    &&& forall|k: int| 0 <= k && start + k * 86400 <= end ==> #[trigger] utc_calendar((start + k * 86400) as i64) is Some
}

/// Trading day mapper for compressed time axis
pub struct TradingDayMapper {
    trading_days: Vec<i64>,
    day_to_index: HashMap<i64, usize>,
}

impl TradingDayMapper {
    /// The trading days, ascending.
    pub closed spec fn days(&self) -> Seq<i64> {
        self.trading_days@
    }

    /// The position of each trading day.
    pub closed spec fn index_map(&self) -> Map<i64, usize> {
        self.day_to_index@
    }

    /// The map holds exactly the trading days, each at its position.
    pub open spec fn wf(&self) -> bool {
        &&& forall|k: i64| self.index_map().contains_key(k) <==> self.days().contains(k)
        &&& forall|i: int| 0 <= i < self.days().len() ==> self.index_map()[#[trigger] self.days()[i]] == i
    }

    /// The trading days from `start` through `end`, stepping a day at a time,
    /// each mapped to its position.
    pub fn new(start: i64, end: i64) -> (m: Self)
        requires
            days_in_range(start, end),
        ensures
            m.wf(),
            m.days() == spec_trading_days(start as int, day_count(start as int, end as int)),
    {
        broadcast use vstd::std_specs::hash::group_hash_axioms;

        let mut trading_days: Vec<i64> = Vec::new();
        let mut day_to_index: HashMap<i64, usize> = HashMap::new();
        let mut current = start;
        let mut index: usize = 0;
        let ghost mut k: int = 0;
        while current <= end
            invariant
                days_in_range(start, end),
                0 <= k,
                current == start + k * 86400,
                current <= end ==> k < day_count(start as int, end as int),
                current > end ==> k == day_count(start as int, end as int),
                trading_days@ == spec_trading_days(start as int, k),
                index == trading_days@.len(),
                index <= k,
                forall|i: int| 0 <= i < trading_days@.len() ==> #[trigger] trading_days@[i] < current,
                forall|i: int, j: int| 0 <= i < j < trading_days@.len() ==> trading_days@[i] < trading_days@[j],
                forall|x: i64| day_to_index@.contains_key(x) <==> trading_days@.contains(x),
                forall|i: int| 0 <= i < trading_days@.len() ==> day_to_index@[#[trigger] trading_days@[i]] == i,
            decreases end - current + 86400,
        {
            assert(utc_calendar((start + k * 86400) as i64) is Some);
            let cal = utc_calendar_of(current);
            let trading = match cal {
                Some((_, month, day, weekday)) => is_trading_day(month, day, weekday),
                None => false,
            };
            let ghost before = trading_days@;
            if trading {
                day_to_index.insert(current, trading_days.len());
                trading_days.push(current);
                index = trading_days.len();
                proof {
                    assert forall|x: i64| day_to_index@.contains_key(x) <==> trading_days@.contains(x) by {
                        if trading_days@.contains(x) && x != current {
                            let j = choose|j: int| 0 <= j < trading_days@.len() && trading_days@[j] == x;
                            assert(before[j] == x);
                        }
                        if before.contains(x) {
                            let j = choose|j: int| 0 <= j < before.len() && before[j] == x;
                            assert(trading_days@[j] == x);
                        }
                        if x == current {
                            assert(trading_days@[trading_days@.len() - 1] == x);
                        }
                    }
                    assert forall|i: int| 0 <= i < trading_days@.len() implies day_to_index@[#[trigger] trading_days@[i]] == i by {
                        if i < before.len() {
                            assert(trading_days@[i] == before[i]);
                            assert(before[i] != current);
                        }
                    }
                }
            }
            proof {
                assert((day_count(start as int, end as int) - 1) * 86400 <= end - start) by (nonlinear_arith)
                    requires
                        end >= start,
                        day_count(start as int, end as int) == (end - start) / 86400 + 1,
                ;
                assert(end - start < day_count(start as int, end as int) * 86400) by (nonlinear_arith)
                    requires
                        end >= start,
                        day_count(start as int, end as int) == (end - start) / 86400 + 1,
                ;
                k = k + 1;
            }
            current = current + 86400;
        }
        TradingDayMapper { trading_days, day_to_index }
    }

    /// Like `new`, but `None` when a day from `start` to `end` is out of
    /// chrono's range or stepping past `end` would overflow.
    pub fn try_new(start: i64, end: i64) -> (m: Option<Self>)
        ensures
            match m {
                Some(m) => days_in_range(start, end) && m.wf() && m.days() == spec_trading_days(
                    start as int,
                    day_count(start as int, end as int),
                ),
                None => !days_in_range(start, end),
            },
    {
        if start <= end && end > i64::MAX - 86400 {
            return None;
        }
        let mut current = start;
        let ghost mut k: int = 0;
        while current <= end
            invariant
                start <= end ==> end <= i64::MAX - 86400,
                0 <= k,
                current == start + k * 86400,
                forall|j: int| 0 <= j < k ==> #[trigger] utc_calendar((start + j * 86400) as i64) is Some,
            decreases end - current + 86400,
        {
            if utc_calendar_of(current).is_none() {
                assert(utc_calendar((start + k * 86400) as i64) is None);
                return None;
            }
            proof {
                k = k + 1;
            }
            current = current + 86400;
        }
        assert forall|j: int| 0 <= j && start + j * 86400 <= end implies #[trigger] utc_calendar((start + j * 86400) as i64) is Some by {
            assert(j < k) by (nonlinear_arith)
                requires
                    start + j * 86400 <= end,
                    current == start + k * 86400,
                    current > end,
            ;
        }
        Some(Self::new(start, end))
    }

    /// The trading days, ascending.
    pub fn trading_days(&self) -> (d: &Vec<i64>)
        ensures
            d@ == self.days(),
    {
        &self.trading_days
    }

    /// The position of the trading day starting at `day_start`, if it is one.
    pub fn index_of_day(&self, day_start: i64) -> (r: Option<usize>)
        ensures
            match r {
                Some(i) => self.index_map().contains_key(day_start) && self.index_map()[day_start] == i,
                None => !self.index_map().contains_key(day_start),
            },
    {
        broadcast use vstd::std_specs::hash::group_hash_axioms;

        match self.day_to_index.get(&day_start) {
            Some(i) => Some(*i),
            None => None,
        }
    }
}

} // verus!
