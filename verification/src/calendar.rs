//! The proleptic Gregorian calendar counted in days from 1970-01-01, the
//! reckoning of Unix timestamps.

use vstd::prelude::*;

verus! {

/// The earliest year a calendar date may have.
pub open spec fn first_year() -> int {
    -262143
}

/// The latest year a calendar date may have.
pub open spec fn last_year() -> int {
    262142
}

/// A leap year: divisible by 4, and by 400 if divisible by 100.
pub open spec fn is_leap_year(y: int) -> bool {
    (y % 4 == 0 && y % 100 != 0) || y % 400 == 0
}

/// The number of days in month `m` of year `y`.
pub open spec fn days_in_month(y: int, m: int) -> int {
    if m == 2 {
        if is_leap_year(y) {
            29
        } else {
            28
        }
    } else if m == 4 || m == 6 || m == 9 || m == 11 {
        30
    } else {
        31
    }
}

/// A date with a month and a day that exist, in a year within the range.
pub open spec fn valid_date(y: int, m: int, d: int) -> bool {
    &&& first_year() <= y <= last_year()
    &&& 1 <= m <= 12
    &&& 1 <= d <= days_in_month(y, m)
}

/// The number of days from 1970-01-01 to the date `y`-`m`-`d` (negative
/// before it), counting in 400-year cycles of 146097 days from March 1.
pub open spec fn days_from_civil(y: int, m: int, d: int) -> int {
    let yp = if m <= 2 { y - 1 } else { y };
    let era = yp / 400;
    let yoe = yp - era * 400;
    let mp = (m + 9) % 12;
    let doy = (153 * mp + 2) / 5 + d - 1;
    let doe = yoe * 365 + yoe / 4 - yoe / 100 + doy;
    era * 146097 + doe - 719468
}

/// The date (year, month, day) that lies `z` days after 1970-01-01.
pub open spec fn civil_from_days(z: int) -> (int, int, int) {
    let zp = z + 719468;
    let era = zp / 146097;
    let doe = zp - era * 146097;
    let yoe = (doe - doe / 1460 + doe / 36524 - doe / 146096) / 365;
    let doy = doe - (365 * yoe + yoe / 4 - yoe / 100);
    let mp = (5 * doy + 2) / 153;
    let d = doy - (153 * mp + 2) / 5 + 1;
    let m = if mp < 10 { mp + 3 } else { mp - 9 };
    (yoe + era * 400 + if m <= 2 { 1int } else { 0int }, m, d)
}

/// The weekday of the day `z` days after 1970-01-01 (a Thursday), counted
/// from Monday as 0.
pub open spec fn weekday_from_days(z: int) -> int {
    (z + 3) % 7
}

} // verus!
