//! The Gregorian calendar.
use vstd::prelude::*;

verus! {

/// Whether a year has 366 days.
pub open spec fn is_leap(y: int) -> bool {
    y % 4 == 0 && (y % 100 != 0 || y % 400 == 0)
}

/// The days of a month.
pub open spec fn days_in_month(y: int, m: int) -> int {
    if m == 2 {
        if is_leap(y) {
            29
        } else {
            28
        }
    } else if m == 4 || m == 6 || m == 9 || m == 11 {
        30
    } else {
        31
    }
}

/// Whether a date exists.
pub open spec fn valid_date(y: int, m: int, d: int) -> bool {
    0 <= y && 1 <= m <= 12 && 1 <= d <= days_in_month(y, m)
}

/// The days of a year before a month.
pub open spec fn days_before_month(y: int, m: int) -> int
    decreases m,
{
    if m <= 1 {
        0
    } else {
        days_before_month(y, m - 1) + days_in_month(y, m - 1)
    }
}

/// The days from the first day of year 0 to the first day of a year: 365 for
/// each year and one for each leap year before it.
pub open spec fn days_before_year(y: int) -> int {
    365 * y + (y + 3) / 4 - (y + 99) / 100 + (y + 399) / 400
}

/// The days from 1970-01-01 to a date.
pub open spec fn day_number(y: int, m: int, d: int) -> int {
    days_before_year(y) + days_before_month(y, m) + d - 1 - 719_528
}

/// Law: a year is as long as its months: 366 days where it is a leap year and
/// 365 otherwise.
pub proof fn law_year_length(y: int)
    requires
        0 <= y,
    ensures
        days_before_year(y + 1) - days_before_year(y) == if is_leap(y) {
            366int
        } else {
            365
        },
        days_before_month(y, 13) == days_before_year(y + 1) - days_before_year(y),
{
    reveal_with_fuel(days_before_month, 14);
    let a = y / 4;
    let b = y / 100;
    let c = y / 400;
    assert((y + 4) / 4 == a + 1);
    assert((y + 100) / 100 == b + 1);
    assert((y + 400) / 400 == c + 1);
    assert((y + 3) / 4 == if y % 4 == 0 { a } else { a + 1 });
    assert((y + 99) / 100 == if y % 100 == 0 { b } else { b + 1 });
    assert((y + 399) / 400 == if y % 400 == 0 { c } else { c + 1 });
    assert(y % 400 == 0 ==> y % 100 == 0);
    assert(y % 100 == 0 ==> y % 4 == 0);
}

/// Law: the first of January 1970 is day 0.
pub proof fn law_epoch_is_day_zero()
    ensures
        valid_date(1970, 1, 1),
        day_number(1970, 1, 1) == 0,
{
}

/// The days before the months of a year that starts in March.
pub open spec fn march_offset(mp: int) -> int {
    (153 * mp + 2) / 5
}

/// The days from 1 March of year 0 to 1 March of a year.
spec fn march_first(y: int) -> int {
    365 * y + y / 4 - y / 100 + y / 400
}

/// The days before year `yoe` of a cycle of 400 years.
spec fn before_yoe(yoe: int) -> int {
    365 * yoe + yoe / 4 - yoe / 100 + yoe / 400
}

/// The year of a day in a cycle of 400 years.
pub open spec fn year_of_era(doe: int) -> int {
    (doe - doe / 1460 + doe / 36_524 - doe / 146_096) / 365
}

/// Within a century, the year of a day.
proof fn lemma_year_in_century(doe: int, b: int, s: int)
    requires
        0 <= b <= 3,
        36_524 * b <= doe < 36_524 * (b + 1),
        doe < 146_096,
        s == ((doe - doe / 1460 + b) / 365) % 4,
    ensures
        100 * b <= (doe - doe / 1460 + b) / 365 < 100 * (b + 1),
        ({
            let y = (doe - doe / 1460 + b) / 365;
            &&& 365 * y + y / 4 - b <= doe
            &&& doe < 365 * (y + 1) + (y + 1) / 4 - (y + 1) / 100
        }),
{
    let a = doe / 1460;
    let n = doe - a + b;
    let y = n / 365;
    let r = n % 365;
    let q = y / 4;
    assert(n == 365 * y + r);
    assert(y == 4 * q + s);
    assert(1460 * a <= doe <= 1460 * a + 1459);
    if b == 0 {
        assert(0 <= y < 100);
    } else if b == 1 {
        assert(100 <= y < 200);
    } else if b == 2 {
        assert(200 <= y < 300);
    } else {
        assert(300 <= y < 400);
    }
}

/// The year of a day in a cycle of 400 years is the one whose days it is among.
proof fn lemma_year_of_era(doe: int)
    requires
        0 <= doe <= 146_096,
    ensures
        0 <= year_of_era(doe) <= 399,
        before_yoe(year_of_era(doe)) <= doe < before_yoe(year_of_era(doe) + 1),
{
    if doe == 146_096 {
        assert(year_of_era(doe) == 399);
    } else {
        let b = doe / 36_524;
        assert(doe / 146_096 == 0);
        let y = (doe - doe / 1460 + b) / 365;
        lemma_year_in_century(doe, b, y % 4);
        assert(y / 100 == b);
    }
}

/// The month and the day of a day in a year that starts in March.
proof fn lemma_month_of_year(doy: int)
    requires
        0 <= doy <= 365,
    ensures
        ({
            let mp = (5 * doy + 2) / 153;
            let d = doy - march_offset(mp) + 1;
            &&& 0 <= mp <= 11
            &&& d >= 1
            &&& (mp == 0 || mp == 2 || mp == 4 || mp == 5 || mp == 7 || mp == 9 || mp == 10) ==> d
                <= 31
            &&& (mp == 1 || mp == 3 || mp == 6 || mp == 8) ==> d <= 30
            &&& mp == 11 ==> d <= 29 && (d == 29 ==> doy == 365)
        }),
{
    let mp = (5 * doy + 2) / 153;
    assert(153 * mp <= 5 * doy + 2 < 153 * mp + 153);
}

/// The days before the months from March on.
proof fn lemma_march_months(y: int, mp: int)
    requires
        0 <= mp <= 11,
    ensures
        mp < 10 ==> days_before_month(y, mp + 3) == march_offset(mp) + 59 + (if is_leap(y) {
            1int
        } else {
            0
        }),
        mp == 10 ==> days_before_month(y, mp - 9) == march_offset(mp) - 306,
        mp == 11 ==> days_before_month(y, mp - 9) == march_offset(mp) - 306,
{
    reveal_with_fuel(days_before_month, 13);
}

/// The first days of the years around a first of March.
proof fn lemma_march_years(y: int)
    requires
        0 <= y,
    ensures
        days_before_year(y) + (if is_leap(y) {
            60int
        } else {
            59
        }) == march_first(y) + 60,
        days_before_year(y + 1) == march_first(y) + 366,
        march_first(y + 1) - march_first(y) == if is_leap(y + 1) {
            366int
        } else {
            365
        },
{
    let a = y / 4;
    let b = y / 100;
    let c = y / 400;
    assert((y + 4) / 4 == a + 1);
    assert((y + 100) / 100 == b + 1);
    assert((y + 400) / 400 == c + 1);
    assert((y + 3) / 4 == if y % 4 == 0 { a } else { a + 1 });
    assert((y + 99) / 100 == if y % 100 == 0 { b } else { b + 1 });
    assert((y + 399) / 400 == if y % 400 == 0 { c } else { c + 1 });
    assert(y % 400 == 0 ==> y % 100 == 0);
    assert(y % 100 == 0 ==> y % 4 == 0);
    let t = y + 1;
    assert(t / 4 == if t % 4 == 0 { a + 1 } else { a });
    assert(t / 100 == if t % 100 == 0 { b + 1 } else { b });
    assert(t / 400 == if t % 400 == 0 { c + 1 } else { c });
    assert(t % 400 == 0 ==> t % 100 == 0);
    assert(t % 100 == 0 ==> t % 4 == 0);
}

/// Whether a date is the one that a number of days since 1970-01-01 leads to.
pub open spec fn is_date_of(days: int, y: int, m: int, d: int) -> bool {
    valid_date(y, m, d) && day_number(y, m, d) == days
}

/// A year as it is displayed: capped at the largest that 16 bits hold.
pub open spec fn capped_year(y: int) -> u16 {
    if y <= u16::MAX {
        y as u16
    } else {
        u16::MAX
    }
}

/// Whether a year, month and day are what is displayed for a number of days since
/// 1970-01-01.
pub open spec fn shows_date(days: int, year: u16, month: u8, day: u8) -> bool {
    exists|y: int| #[trigger]
        is_date_of(days, y, month as int, day as int) && year == capped_year(y)
}

/// The civil date that the closed-form calculation gives.
proof fn lemma_civil(days: int, era: int, doe: int, yoe: int, doy: int, mp: int)
    requires
        0 <= days,
        era == (days + 719_468) / 146_097,
        doe == (days + 719_468) % 146_097,
        yoe == year_of_era(doe),
        doy == doe - (365 * yoe + yoe / 4 - yoe / 100),
        mp == (5 * doy + 2) / 153,
    ensures
        0 <= doy <= 365,
        0 <= mp <= 11,
        ({
            let d = doy - march_offset(mp) + 1;
            let m = if mp < 10 {
                mp + 3
            } else {
                mp - 9
            };
            let y = if m <= 2 {
                yoe + era * 400 + 1
            } else {
                yoe + era * 400
            };
            is_date_of(days, y, m, d) && d <= 31
        }),
{
    lemma_year_of_era(doe);
    let big = yoe + 400 * era;
    assert(big / 4 == yoe / 4 + 100 * era);
    assert(big / 100 == yoe / 100 + 4 * era);
    assert(big / 400 == era);
    assert(yoe / 400 == 0);
    assert(march_first(big) == before_yoe(yoe) + 146_097 * era);
    let next = yoe + 1;
    let bigger = big + 1;
    assert(bigger / 4 == next / 4 + 100 * era);
    assert(bigger / 100 == next / 100 + 4 * era);
    assert(bigger / 400 == next / 400 + era);
    assert(march_first(bigger) == before_yoe(next) + 146_097 * era);
    lemma_march_years(big);
    lemma_month_of_year(doy);
    lemma_march_months(big, mp);
    lemma_march_months(bigger, mp);
    assert(days + 719_468 == 146_097 * era + doe);
}

/// Convert days since the Unix epoch to a civil date `(year, month, day)` in
/// constant time. The year is capped at `u16::MAX`.
pub fn civil_from_days(days: u64) -> (r: (u16, u8, u8))
    requires
        days <= i64::MAX - 719_468,
    ensures
        shows_date(days as int, r.0, r.1, r.2),
{
    let z: u64 = days + 719_468;
    let era: u64 = z / 146_097;
    let doe: u64 = z % 146_097;
    proof {
        lemma_year_of_era(doe as int);
    }
    let yoe: u64 = (doe - doe / 1460 + doe / 36_524 - doe / 146_096) / 365;
    let doy: u64 = doe - (365 * yoe + yoe / 4 - yoe / 100);
    let mp: u64 = (5 * doy + 2) / 153;
    proof {
        lemma_civil(
            days as int,
            era as int,
            doe as int,
            yoe as int,
            doy as int,
            mp as int,
        );
    }
    let d: u64 = doy - (153 * mp + 2) / 5 + 1;
    let m: u64 = if mp < 10 {
        mp + 3
    } else {
        mp - 9
    };
    let y: u64 = if m <= 2 {
        yoe + era * 400 + 1
    } else {
        yoe + era * 400
    };
    let year: u16 = if y <= u16::MAX as u64 {
        y as u16
    } else {
        u16::MAX
    };
    let month: u8 = m as u8;
    let day: u8 = d as u8;
    assert(is_date_of(days as int, y as int, month as int, day as int));
    (year, month, day)
}

/// Law: different dates have different day numbers: the later date has the larger
/// one.
pub proof fn law_dates_are_ordered(y1: int, m1: int, d1: int, y2: int, m2: int, d2: int)
    requires
        valid_date(y1, m1, d1),
        valid_date(y2, m2, d2),
        y1 < y2 || (y1 == y2 && (m1 < m2 || (m1 == m2 && d1 < d2))),
    ensures
        day_number(y1, m1, d1) < day_number(y2, m2, d2),
{
    lemma_before_month_grows(y1, m1, 13);
    lemma_before_month_grows(y2, 1, m2);
    law_year_length(y1);
    if y1 < y2 {
        lemma_before_year_grows(y1 + 1, y2);
    } else if m1 < m2 {
        lemma_before_month_grows(y1, m1, m2);
    }
}

/// Law: a number of days leads to one date only.
pub proof fn law_date_is_unique(
    days: int,
    year1: u16,
    month1: u8,
    day1: u8,
    year2: u16,
    month2: u8,
    day2: u8,
)
    requires
        shows_date(days, year1, month1, day1),
        shows_date(days, year2, month2, day2),
    ensures
        year1 == year2,
        month1 == month2,
        day1 == day2,
{
    let (m1, d1, m2, d2) = (month1 as int, day1 as int, month2 as int, day2 as int);
    let y1 = choose|y: int| #[trigger] is_date_of(days, y, m1, d1) && year1 == capped_year(y);
    let y2 = choose|y: int| #[trigger] is_date_of(days, y, m2, d2) && year2 == capped_year(y);
    if y1 < y2 || (y1 == y2 && (m1 < m2 || (m1 == m2 && d1 < d2))) {
        law_dates_are_ordered(y1, m1, d1, y2, m2, d2);
    } else if y1 != y2 || m1 != m2 || d1 != d2 {
        law_dates_are_ordered(y2, m2, d2, y1, m1, d1);
    }
}

proof fn lemma_before_month_grows(y: int, m: int, n: int)
    requires
        1 <= m <= n,
    ensures
        m < n ==> days_before_month(y, m) + days_in_month(y, m) <= days_before_month(y, n),
        days_before_month(y, m) <= days_before_month(y, n),
    decreases n - m,
{
    if m < n {
        lemma_before_month_grows(y, m, n - 1);
        if m == n - 1 {
        } else {
            assert(days_in_month(y, n - 1) >= 0);
        }
    }
}

proof fn lemma_before_year_grows(y: int, z: int)
    requires
        0 <= y <= z,
    ensures
        days_before_year(y) <= days_before_year(z),
    decreases z - y,
{
    if y < z {
        law_year_length(y);
        lemma_before_year_grows(y + 1, z);
    }
}

} // verus!
