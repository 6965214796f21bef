//! Proleptic-Gregorian calendar arithmetic on day counts relative to
//! 1970-01-01 (Howard Hinnant's `days_from_civil` / `civil_from_days`).
use vstd::prelude::*;

verus! {

/// Whether `y` is a leap year of the proleptic Gregorian calendar.
pub open spec fn is_leap_year(y: int) -> bool {
    (y % 4 == 0 && y % 100 != 0) || y % 400 == 0
}

/// Number of days in month `m` (1..=12) of year `y`.
pub open spec fn days_in_month(y: int, m: int) -> int {
    if m == 2 {
        if is_leap_year(y) { 29 } else { 28 }
    } else if m == 4 || m == 6 || m == 9 || m == 11 {
        30
    } else {
        31
    }
}

/// A real calendar date.
pub open spec fn valid_date(y: int, m: int, d: int) -> bool {
    1 <= m <= 12 && 1 <= d <= days_in_month(y, m)
}

/// Days since 1970-01-01 of the date `y-m-d`: the count of days in the
/// 400-year eras and the years (starting in March) before it, plus its
/// offset inside its own March-based year.
pub open spec fn days_from_civil(y: int, m: int, d: int) -> int {
    let y_adj = if m <= 2 { y - 1 } else { y };
    let era = y_adj / 400;
    let yoe = y_adj - era * 400;
    let mp = (m + 9) % 12;
    let doy = (153 * mp + 2) / 5 + d - 1;
    let doe = yoe * 365 + yoe / 4 - yoe / 100 + doy;
    era * 146097 + doe - 719468
}

/// The date (year, month, day) of day `z` after 1970-01-01.
pub open spec fn civil_of_days(z: int) -> (int, int, int) {
    let zz = z + 719468;
    let era = zz / 146097;
    let doe = zz - era * 146097;
    let yoe = (doe - doe / 1460 + doe / 36524 - doe / 146096) / 365;
    let y = yoe + era * 400;
    let doy = doe - (365 * yoe + yoe / 4 - yoe / 100);
    let mp = (5 * doy + 2) / 153;
    let d = doy - (153 * mp + 2) / 5 + 1;
    let m = if mp < 10 { mp + 3 } else { mp - 9 };
    (if m <= 2 { y + 1 } else { y }, m, d)
}

/// Inside one 400-year era (day `doe` of it, counted from a March 1st),
/// the year of the era and the day of that (March-based) year.
proof fn lemma_year_of_era(doe: int)
    requires
        0 <= doe <= 146096,
    ensures
        ({
            let yoe = (doe - doe / 1460 + doe / 36524 - doe / 146096) / 365;
            let doy = doe - (365 * yoe + yoe / 4 - yoe / 100);
            &&& 0 <= yoe <= 399
            &&& 0 <= doy <= 365
            &&& doy == 365 ==> (yoe % 4 == 3 && ((yoe + 1) % 100 != 0 || yoe == 399))
        }),
{
    let c: int = if doe / 36524 > 3 { 3 } else { doe / 36524 };
    let dc = doe - 36524 * c;
    assert(0 <= dc <= 36524);
    assert(dc == 36524 ==> c == 3 && doe == 146096);
    let q: int = if dc / 1461 > 24 { 24 } else { dc / 1461 };
    let dq = dc - 1461 * q;
    assert(0 <= dq <= 1460);
    assert(dq == 1460 ==> q == 24 || dc % 1461 == 1460);
    let a: int = if dq / 365 > 3 { 3 } else { dq / 365 };
    let da = dq - 365 * a;
    assert(0 <= da <= 365);
    assert(doe / 36524 - doe / 146096 == c);
    let r = 24 * c + q + 365 * a + da;
    assert(doe == 1460 * (25 * c + q) + r);
    assert(0 <= r < 2920);
    assert(doe / 1460 == 25 * c + q + r / 1460);
    assert(da == 365 ==> a == 3 && dq == 1460);
    assert(r / 1460 == 1 ==> da >= 1);
    let big_y = 100 * c + 4 * q + a;
    let t = doe - doe / 1460 + doe / 36524 - doe / 146096;
    assert(t == 365 * big_y + da - r / 1460);
    assert(t / 365 == big_y);
    assert(big_y / 4 == 25 * c + q);
    assert(big_y / 100 == c);
    if da == 365 {
        assert(dq == 1460);
        if q == 24 {
            assert(dc == 36524);
            assert(c == 3);
        }
    }
}

/// Inside a March-based year, day `doy` lies in month `mp` (0 = March)
/// on day `d` of it.
proof fn lemma_month_of_year(doy: int)
    requires
        0 <= doy <= 365,
    ensures
        ({
            let mp = (5 * doy + 2) / 153;
            let d = doy - (153 * mp + 2) / 5 + 1;
            let m = if mp < 10 { mp + 3 } else { mp - 9 };
            &&& 0 <= mp <= 11
            &&& (m + 9) % 12 == mp
            &&& 1 <= d
            &&& mp == 11 ==> d <= 28 || (d == 29 && doy == 365)
            &&& mp < 11 ==> d <= days_in_month(0, m)
        }),
{
    let mp = (5 * doy + 2) / 153;
    assert(0 <= mp <= 11);
    let cum = (153 * mp + 2) / 5;
    let next = (153 * (mp + 1) + 2) / 5;
    assert(cum <= doy < next);
    if mp == 0 { assert(cum == 0 && next == 31); }
    else if mp == 1 { assert(cum == 31 && next == 61); }
    else if mp == 2 { assert(cum == 61 && next == 92); }
    else if mp == 3 { assert(cum == 92 && next == 122); }
    else if mp == 4 { assert(cum == 122 && next == 153); }
    else if mp == 5 { assert(cum == 153 && next == 184); }
    else if mp == 6 { assert(cum == 184 && next == 214); }
    else if mp == 7 { assert(cum == 214 && next == 245); }
    else if mp == 8 { assert(cum == 245 && next == 275); }
    else if mp == 9 { assert(cum == 275 && next == 306); }
    else if mp == 10 { assert(cum == 306 && next == 337); }
    else { assert(cum == 337); }
}

/// `civil_of_days` yields a real date, and that date is day `z`.
pub proof fn lemma_civil_of_days(z: int)
    ensures
        ({
            let (y, m, d) = civil_of_days(z);
            valid_date(y, m, d) && days_from_civil(y, m, d) == z
        }),
{
    let zz = z + 719468;
    let era = zz / 146097;
    let doe = zz - era * 146097;
    assert(0 <= doe < 146097);
    lemma_year_of_era(doe);
    let yoe = (doe - doe / 1460 + doe / 36524 - doe / 146096) / 365;
    let y = yoe + era * 400;
    let doy = doe - (365 * yoe + yoe / 4 - yoe / 100);
    lemma_month_of_year(doy);
    let mp = (5 * doy + 2) / 153;
    let d = doy - (153 * mp + 2) / 5 + 1;
    let m = if mp < 10 { mp + 3 } else { mp - 9 };
    let yy = if m <= 2 { y + 1 } else { y };
    let y_adj = if m <= 2 { yy - 1 } else { yy };
    assert(y_adj == y);
    assert(y_adj / 400 == era);
    assert(y_adj - era * 400 == yoe);
    assert((153 * mp + 2) / 5 + d - 1 == doy);
    if mp == 11 && doy == 365 {
        assert(yy == era * 400 + yoe + 1);
        assert(is_leap_year(yy));
    }
}

/// Every day from 1970-01-01 (day 0) to 9999-12-31 (day 2932896) lies in a
/// year from 1600 to 9999.
pub proof fn lemma_civil_year_range(z: int)
    requires
        0 <= z <= 2932896,
    ensures
        1600 <= civil_of_days(z).0 <= 9999,
{
    let zz = z + 719468;
    let era = zz / 146097;
    assert(4 <= era <= 24);
    let doe = zz - era * 146097;
    assert(0 <= doe < 146097);
    lemma_year_of_era(doe);
    let yoe = (doe - doe / 1460 + doe / 36524 - doe / 146096) / 365;
    let doy = doe - (365 * yoe + yoe / 4 - yoe / 100);
    let mp = (5 * doy + 2) / 153;
    if era == 24 && yoe == 399 {
        assert(doe <= 146036);
        assert(doy <= 305);
        assert(mp <= 9);
    }
}

/// Converts a day count (days since 1970-01-01) into its proleptic-Gregorian
/// (year, month, day).
pub fn civil_from_days(z: i64) -> (r: (i64, u32, u32))
    requires
        z <= i64::MAX - 719468,
    ensures
        (r.0 as int, r.1 as int, r.2 as int) == civil_of_days(z as int),
        valid_date(r.0 as int, r.1 as int, r.2 as int),
        days_from_civil(r.0 as int, r.1 as int, r.2 as int) == z as int,
{
    proof {
        lemma_civil_of_days(z as int);
    }
    let z = z + 719_468;
    let era = (if z >= 0 { z } else { z - 146_096 }) / 146_097;
    assert(era == z / 146097);
    let doe = (z - era * 146_097) as u64;
    proof {
        lemma_year_of_era(doe as int);
    }
    let yoe = (doe - doe / 1460 + doe / 36524 - doe / 146_096) / 365;
    let y = yoe as i64 + era * 400;
    let doy = doe - (365 * yoe + yoe / 4 - yoe / 100);
    let mp = (5 * doy + 2) / 153;
    let d = (doy - (153 * mp + 2) / 5 + 1) as u32;
    let m = (if mp < 10 { mp + 3 } else { mp - 9 }) as u32;
    let y = if m <= 2 { y + 1 } else { y };
    (y, m, d)
}

} // verus!
