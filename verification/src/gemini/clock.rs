//! Time in seconds and as a date.

use crate::outside;
use crate::text;
use vstd::prelude::*;
use vstd::string::*;

verus! {

// ---------------------------------------------------------------------------
// The Gregorian calendar
// ---------------------------------------------------------------------------

pub open spec fn leap_year(y: int) -> bool {
    y % 4 == 0 && (y % 100 != 0 || y % 400 == 0)
}

pub open spec fn days_in_month(y: int, m: int) -> int {
    if m == 2 {
        if leap_year(y) {
            29
        } else {
            28
        }
    } else if m == 4 || m == 6 || m == 9 || m == 11 {
        30
    } else {
        31
    }
}

pub open spec fn is_date(y: int, m: int, d: int) -> bool {
    1 <= m <= 12 && 1 <= d <= days_in_month(y, m)
}

/// The days of the year before a month, in a year that is not a leap year.
pub open spec fn days_before_month(m: int) -> int {
    if m == 1 {
        0
    } else if m == 2 {
        31
    } else if m == 3 {
        59
    } else if m == 4 {
        90
    } else if m == 5 {
        120
    } else if m == 6 {
        151
    } else if m == 7 {
        181
    } else if m == 8 {
        212
    } else if m == 9 {
        243
    } else if m == 10 {
        273
    } else if m == 11 {
        304
    } else {
        334
    }
}

/// The days from the first of January of the year 0 to that of the year `y`:
/// 365 a year and one more for each leap year.
pub open spec fn days_before_year(y: int) -> int {
    365 * y + (y + 3) / 4 - (y + 99) / 100 + (y + 399) / 400
}

/// The days from the first of January 1970 to a date.
pub open spec fn day_number(y: int, m: int, d: int) -> int {
    days_before_year(y) + days_before_month(m) + (if m > 2 && leap_year(y) {
        1int
    } else {
        0
    }) + d - 1 - 719_528
}

/// Each day belongs to one date only.
pub proof fn law_one_date_per_day(y1: int, m1: int, d1: int, y2: int, m2: int, d2: int)
    requires
        is_date(y1, m1, d1),
        is_date(y2, m2, d2),
        day_number(y1, m1, d1) == day_number(y2, m2, d2),
    ensures
        (y1, m1, d1) == (y2, m2, d2),
{
    lemma_day_of_year(y1, m1, d1);
    lemma_day_of_year(y2, m2, d2);
    if y1 < y2 {
        lemma_years_apart(y1, y2);
    } else if y2 < y1 {
        lemma_years_apart(y2, y1);
    }
}

/// The day of the year, counted from 0, is below the length of the year.
proof fn lemma_day_of_year(y: int, m: int, d: int)
    requires
        is_date(y, m, d),
    ensures
        days_before_year(y) <= day_number(y, m, d) + 719_528 < days_before_year(y + 1),
{
    lemma_year_length(y);
}

proof fn lemma_year_length(y: int)
    ensures
        days_before_year(y + 1) - days_before_year(y) == if leap_year(y) {
            366int
        } else {
            365
        },
{
    assert((y + 4) / 4 - (y + 3) / 4 == if y % 4 == 0 {
        1int
    } else {
        0
    });
    assert((y + 100) / 100 - (y + 99) / 100 == if y % 100 == 0 {
        1int
    } else {
        0
    });
    assert((y + 400) / 400 - (y + 399) / 400 == if y % 400 == 0 {
        1int
    } else {
        0
    });
    if y % 400 == 0 {
        assert(y % 100 == 0);
    }
    if y % 100 == 0 {
        assert(y % 4 == 0);
    }
}

proof fn lemma_years_apart(a: int, b: int)
    requires
        a < b,
    ensures
        days_before_year(a + 1) <= days_before_year(b),
    decreases b - a,
{
    if a + 1 < b {
        lemma_years_apart(a, b - 1);
        lemma_year_length(b - 1);
    }
}

/// The days of an era (400 years that begin on the first of March) before its
/// year `yoe`.
spec fn era_days(yoe: int) -> int {
    365 * yoe + yoe / 4 - yoe / 100
}

/// The year of the era to which a day of the era belongs.
proof fn lemma_year_of_era(doe: int)
    requires
        0 <= doe < 146_097,
    ensures
        ({
            let yoe = (doe - doe / 1460 + doe / 36_524 - doe / 146_096) / 365;
            &&& 0 <= yoe < 400
            &&& era_days(yoe) <= doe
            &&& yoe < 399 ==> doe < era_days(yoe + 1)
            &&& doe - era_days(yoe) <= 365
        }),
{
    let c = doe / 36_524;
    if c == 4 {
        assert(doe == 146_096);
    } else {
        let r = doe - 36_524 * c;
        let k = r / 1461;
        let w = r % 1461;
        let carry: int = if 24 * c + k + w >= 1460 {
            1
        } else {
            0
        };
        assert(0 <= k <= 24);
        assert(doe == 36_524 * c + 1461 * k + w);
        assert(doe == 1460 * (25 * c + k) + (24 * c + k + w));
        assert(doe / 1460 == 25 * c + k + carry) by {
            assert(0 <= 24 * c + k + w < 2920);
        }
        assert(doe / 146_096 == 0);
        let j = (w - carry) / 365;
        assert(0 <= j <= 3);
        assert(doe - doe / 1460 + c == 365 * (100 * c + 4 * k + j) + (w - carry) % 365);
        let yoe = (doe - doe / 1460 + doe / 36_524 - doe / 146_096) / 365;
        assert(yoe == 100 * c + 4 * k + j);
        assert(yoe / 4 == 25 * c + k);
        assert(yoe / 100 == c);
        if j < 3 {
            assert((yoe + 1) / 4 == 25 * c + k);
            assert((yoe + 1) / 100 == c);
        } else {
            assert((yoe + 1) / 4 == 25 * c + k + 1);
            assert((yoe + 1) / 100 == if k == 24 {
                c + 1
            } else {
                c
            });
        }
    }
}

/// The days before the first of March of a year, told in eras.
#[verifier::spinoff_prover]
proof fn lemma_era(era: int, yoe: int)
    requires
        0 <= yoe < 400,
    ensures
        ({
            let y = yoe + 400 * era;
            days_before_year(y) + 59 + (if leap_year(y) {
                1int
            } else {
                0
            }) == 146_097 * era + era_days(yoe) + 60
        }),
{
    let y = yoe + 400 * era;
    assert((y + 3) / 4 == 100 * era + (yoe + 3) / 4);
    assert((y + 99) / 100 == 4 * era + (yoe + 99) / 100);
    assert((y + 399) / 400 == era + (yoe + 399) / 400);
    assert(y % 4 == yoe % 4);
    assert(y % 100 == yoe % 100);
    assert(y % 400 == yoe);
}

/// The month and the day of the month, told by the day of a year that begins
/// on the first of March.
proof fn lemma_month(doy: int)
    requires
        0 <= doy <= 365,
    ensures
        ({
            let mp = (5 * doy + 2) / 153;
            let d = doy - (153 * mp + 2) / 5 + 1;
            &&& 0 <= mp <= 11
            &&& (153 * mp + 2) / 5 <= doy
            &&& 1 <= d <= 31
            &&& mp < 10 ==> days_before_month(mp + 3) + d - 1 == doy + 59
            &&& (mp == 1 || mp == 3 || mp == 6 || mp == 8) ==> d <= 30
            &&& mp >= 10 ==> days_before_month(mp - 9) + d - 1 == doy - 306
            &&& mp == 11 ==> d <= 29
            &&& mp == 11 && doy < 365 ==> d <= 28
        }),
{
    let mp = (5 * doy + 2) / 153;
    assert(mp == 0 || mp == 1 || mp == 2 || mp == 3 || mp == 4 || mp == 5 || mp == 6 || mp == 7
        || mp == 8 || mp == 9 || mp == 10 || mp == 11);
}

/// A year that begins on the first of March has a 366th day only where the
/// next calendar year is a leap year.
proof fn lemma_leap_day(era: int, yoe: int, doe: int)
    requires
        0 <= yoe < 400,
        0 <= doe < 146_097,
        yoe < 399 ==> doe < era_days(yoe + 1),
        doe - era_days(yoe) == 365,
    ensures
        leap_year(yoe + 400 * era + 1),
{
    lemma_same_in_every_era(era, yoe + 1);
    if yoe < 399 {
        lemma_next_multiple(yoe);
    }
}

proof fn lemma_same_in_every_era(era: int, a: int)
    ensures
        (a + 400 * era) % 4 == a % 4,
        (a + 400 * era) % 100 == a % 100,
        (a + 400 * era) % 400 == a % 400,
{
    lemma_remainder_of_4(a, 100 * era);
    lemma_remainder_of_100(a, 4 * era);
    lemma_remainder_of_400(a, era);
}

proof fn lemma_remainder_of_4(a: int, k: int)
    ensures
        (a + 4 * k) % 4 == a % 4,
{
}

proof fn lemma_remainder_of_100(a: int, k: int)
    ensures
        (a + 100 * k) % 100 == a % 100,
{
}

proof fn lemma_remainder_of_400(a: int, k: int)
    ensures
        (a + 400 * k) % 400 == a % 400,
{
}

proof fn lemma_next_multiple(a: int)
    requires
        0 <= a,
    ensures
        (a + 1) / 4 - a / 4 == if (a + 1) % 4 == 0 {
            1int
        } else {
            0
        },
        (a + 1) / 100 - a / 100 == if (a + 1) % 100 == 0 {
            1int
        } else {
            0
        },
{
}

/// The date that the parts of a day give.
proof fn lemma_date(era: int, doe: int, yoe: int, doy: int)
    requires
        0 <= doe < 146_097,
        yoe == (doe - doe / 1460 + doe / 36_524 - doe / 146_096) / 365,
        doy == doe - era_days(yoe),
    ensures
        ({
            let mp = (5 * doy + 2) / 153;
            let d = doy - (153 * mp + 2) / 5 + 1;
            let m = if mp < 10 {
                mp + 3
            } else {
                mp - 9
            };
            let y = yoe + 400 * era + if m <= 2 {
                1int
            } else {
                0
            };
            is_date(y, m, d) && day_number(y, m, d) == 146_097 * era + doe - 719_468
        }),
{
    lemma_year_of_era(doe);
    lemma_month(doy);
    lemma_era(era, yoe);
    lemma_year_length(yoe + 400 * era);
    if doy == 365 {
        lemma_leap_day(era, yoe, doe);
    }
}

// ---------------------------------------------------------------------------
// Functions
// ---------------------------------------------------------------------------

/// The date of a day, given as the number of days since the first of January
/// 1970.
pub fn civil_from_days(z: i64) -> (r: (i64, u32, u32))
    requires
        z <= i64::MAX - 719_468,
    ensures
        is_date(r.0 as int, r.1 as int, r.2 as int),
        day_number(r.0 as int, r.1 as int, r.2 as int) == z,
{
    let shifted: i64 = z + 719_468;
    let lowered: i64 = if shifted >= 0 {
        shifted
    } else {
        shifted - 146_096
    };
    let era: i64 = lowered / 146_097;
    proof {
        assert(era == shifted as int / 146_097);
    }
    let doe: u64 = (shifted - era * 146_097) as u64;
    let yoe: u64 = (doe - doe / 1460 + doe / 36_524 - doe / 146_096) / 365;
    proof {
        lemma_year_of_era(doe as int);
        lemma_date(era as int, doe as int, yoe as int, doe - era_days(yoe as int));
        lemma_month(doe - era_days(yoe as int));
    }
    let y: i64 = yoe as i64 + era * 400;
    let doy: u64 = doe - (365 * yoe + yoe / 4 - yoe / 100);
    let mp: u64 = (5 * doy + 2) / 153;
    let d: u64 = doy - (153 * mp + 2) / 5 + 1;
    let m: u64 = if mp < 10 {
        mp + 3
    } else {
        mp - 9
    };
    (
        if m <= 2 {
            y + 1
        } else {
            y
        },
        m as u32,
        d as u32,
    )
}

/// What a reading of the clock is taken for: its seconds, or 0 where the clock
/// stands before the Unix epoch and so gives none.
pub fn seconds_or_zero(reading: Option<u64>) -> (r: u64)
    ensures
        r == match reading {
            Some(secs) => secs,
            None => 0,
        },
{
    match reading {
        Some(secs) => secs,
        None => 0,
    }
}

/// The seconds since the Unix epoch, 0 where the clock stands before it:
/// [`seconds_or_zero`] of what the clock says at the moment. Any number can come
/// of it, so nothing is stated of the result.
pub fn now_unix_u64() -> (r: u64) {
    seconds_or_zero(outside::seconds_since_epoch())
}

/// The seconds since the Unix epoch, as a signed number.
pub fn now_unix() -> (r: i64)
    ensures
        exists|secs: u64| r == #[trigger] (secs as i64),
{
    let secs: u64 = now_unix_u64();
    secs as i64
}

/// A date and a time of day (in seconds) as `YYYY-MM-DDTHH:MM:SSZ`.
pub open spec fn iso_text(y: nat, m: nat, d: nat, time: nat) -> Seq<char> {
    text::zero_padded(y, 4) + "-"@ + text::zero_padded(m, 2) + "-"@ + text::zero_padded(d, 2)
        + "T"@ + text::zero_padded(time / 3600, 2) + ":"@ + text::zero_padded(time % 3600 / 60, 2)
        + ":"@ + text::zero_padded(time % 60, 2) + "Z"@
}

/// `s` is the given second (since the epoch) as a date and a time of day.
pub open spec fn is_iso(s: Seq<char>, secs: nat) -> bool {
    exists|y: int, m: int, d: int|
        #![trigger day_number(y, m, d)]
        y >= 0 && is_date(y, m, d) && day_number(y, m, d) == secs / 86_400 && s == iso_text(
            y as nat,
            m as nat,
            d as nat,
            secs % 86_400,
        )
}

proof fn lemma_padded_length(n: nat)
    ensures
        n < 100 ==> text::zero_padded(n, 2).len() == 2,
        n < 10_000 ==> text::zero_padded(n, 4).len() == 4,
{
    reveal_with_fuel(text::decimal, 5);
}

/// Up to the year 9999 the text has twenty characters and its separators stand
/// at fixed places.
pub proof fn law_iso_shape(y: nat, m: nat, d: nat, time: nat)
    requires
        y < 10_000,
        is_date(y as int, m as int, d as int),
        time < 86_400,
    ensures
        ({
            let s = iso_text(y, m, d, time);
            &&& s.len() == 20
            &&& s[4] == '-' && s[7] == '-' && s[10] == 'T'
            &&& s[13] == ':' && s[16] == ':' && s[19] == 'Z'
        }),
{
    reveal_strlit("-");
    reveal_strlit("T");
    reveal_strlit(":");
    reveal_strlit("Z");
    lemma_padded_length(y);
    lemma_padded_length(m);
    lemma_padded_length(d);
    lemma_padded_length(time / 3600);
    lemma_padded_length(time % 3600 / 60);
    lemma_padded_length(time % 60);
}

proof fn lemma_not_before_the_epoch(y: int, m: int, d: int)
    requires
        is_date(y, m, d),
        day_number(y, m, d) >= 0,
    ensures
        y >= 1970,
{
    lemma_day_of_year(y, m, d);
    if y < 1970 {
        lemma_years_apart(y, 1970);
    }
}

/// The given second as a date and a time of day, in UTC.
#[verifier::spinoff_prover]
#[verifier::rlimit(30)]
pub fn iso_at(secs: u64) -> (r: String)
    ensures
        is_iso(r@, secs as nat),
{
    let days: u64 = secs / 86_400;
    let (y, m, d) = civil_from_days(days as i64);
    proof {
        lemma_not_before_the_epoch(y as int, m as int, d as int);
    }
    let time: u64 = secs % 86_400;
    let (hours, minutes, seconds): (u64, u64, u64) = (time / 3600, time % 3600 / 60, time % 60);
    let mut out: String = text::padded_text(y as u64, 4);
    out.append("-");
    let month = text::padded_text(m as u64, 2);
    out.append(month.as_str());
    out.append("-");
    let day = text::padded_text(d as u64, 2);
    out.append(day.as_str());
    out.append("T");
    let hour = text::padded_text(hours, 2);
    out.append(hour.as_str());
    out.append(":");
    let minute = text::padded_text(minutes, 2);
    out.append(minute.as_str());
    out.append(":");
    let second = text::padded_text(seconds, 2);
    out.append(second.as_str());
    out.append("Z");
    out
}

/// The present second as a date and a time of day, in UTC.
pub fn now_iso() -> (r: String)
    ensures
        exists|secs: u64| #[trigger] is_iso(r@, secs as nat),
{
    iso_at(now_unix_u64())
}

// ---------------------------------------------------------------------------
// The calendar
// ---------------------------------------------------------------------------


/// The days are counted from the first of January 1970, and the next day has the
/// next number: within a month, from the last day of a month to the first of the
/// next, and from the last day of a year to the first of the next.
pub proof fn law_next_day(y: int, m: int, d: int)
    requires
        is_date(y, m, d),
    ensures
        day_number(1970, 1, 1) == 0,
        d < days_in_month(y, m) ==> day_number(y, m, d + 1) == day_number(y, m, d) + 1,
        d == days_in_month(y, m) && m < 12 ==> day_number(y, m + 1, 1) == day_number(y, m, d) + 1,
        d == days_in_month(y, m) && m == 12 ==> day_number(y + 1, 1, 1) == day_number(y, m, d) + 1,
{
    lemma_year_length(y);
}

/// The lengths of the months: February has 29 days in a year that four divides
/// and a hundred does not, or that four hundred divides.
pub proof fn law_lengths_of_months(y: int, m: int)
    ensures
        y % 400 == 0 || (y % 4 == 0 && y % 100 != 0) ==> days_in_month(y, 2) == 29,
        y % 400 != 0 && (y % 4 != 0 || y % 100 == 0) ==> days_in_month(y, 2) == 28,
        m == 4 || m == 6 || m == 9 || m == 11 ==> days_in_month(y, m) == 30,
        m == 1 || m == 3 || m == 5 || m == 7 || m == 8 || m == 10 || m == 12 ==> days_in_month(y, m)
            == 31,
{
    if y % 400 == 0 {
        assert(y % 4 == 0) by (nonlinear_arith)
            requires
                y % 400 == 0,
        ;
    }
}

/// A time of day is told in hours, minutes and seconds, each with two digits,
/// behind the date.
pub proof fn law_time_is_told(y: nat, m: nat, d: nat, hours: nat, minutes: nat, seconds: nat)
    requires
        minutes < 60,
        seconds < 60,
    ensures
        iso_text(y, m, d, (hours * 3600 + minutes * 60 + seconds) as nat) == text::zero_padded(y, 4)
            + "-"@ + text::zero_padded(m, 2) + "-"@ + text::zero_padded(d, 2) + "T"@
            + text::zero_padded(hours, 2) + ":"@ + text::zero_padded(minutes, 2) + ":"@
            + text::zero_padded(seconds, 2) + "Z"@,
{
    let time = (hours * 3600 + minutes * 60 + seconds) as nat;
    assert(time / 3600 == hours);
    assert(time % 3600 == minutes * 60 + seconds);
    assert(time % 3600 / 60 == minutes);
    assert(time % 60 == seconds);
}

/// A second is told by its one date and its time of day.
pub proof fn law_second_has_one_text(s: Seq<char>, y: int, m: int, d: int, time: nat)
    requires
        y >= 0,
        is_date(y, m, d),
        day_number(y, m, d) >= 0,
        time < 86_400,
        is_iso(s, (day_number(y, m, d) * 86_400 + time) as nat),
    ensures
        s == iso_text(y as nat, m as nat, d as nat, time),
{
    let secs = (day_number(y, m, d) * 86_400 + time) as nat;
    let (y2, m2, d2) = choose|y2: int, m2: int, d2: int|
        #![trigger day_number(y2, m2, d2)]
        y2 >= 0 && is_date(y2, m2, d2) && day_number(y2, m2, d2) == secs / 86_400 && s == iso_text(
            y2 as nat,
            m2 as nat,
            d2 as nat,
            secs % 86_400,
        );
    assert(secs / 86_400 == day_number(y, m, d));
    assert(secs % 86_400 == time);
    law_one_date_per_day(y, m, d, y2, m2, d2);
}

} // verus!
