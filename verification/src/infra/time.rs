//! Time helpers: Unix milliseconds to calendar dates, and readable timestamps.
//!
//! Everything is UTC; the only uses are diagnostic timestamps in logs and the
//! library index, and release years.

use vstd::prelude::*;
use crate::text::{append_vec, dec_digits, padded, push_padded, string_of};

verus! {

/// Milliseconds in a day.
pub const DAY_MS: i64 = 86_400_000;

/// A calendar date (UTC).
#[derive(Clone, Copy, Debug, PartialEq, Eq, Structural)]
pub struct CivilDate {
    pub year: i64,
    pub month: u32,
    pub day: u32,
}

/// The date `days` after 1970-01-01 (days may be negative), by Howard Hinnant's
/// `civil_from_days`: year, month, day.
pub open spec fn civil_spec(days: int) -> (int, int, int) {
    let z = days + 719468;
    let era = z / 146097;
    let doe = z - era * 146097;
    let yoe = (doe - doe / 1460 + doe / 36524 - doe / 146096) / 365;
    let y = yoe + era * 400;
    let doy = doe - (365 * yoe + yoe / 4 - yoe / 100);
    let mp = (5 * doy + 2) / 153;
    let d = doy - (153 * mp + 2) / 5 + 1;
    let m = if mp < 10 {
        mp + 3
    } else {
        mp - 9
    };
    (if m <= 2 {
        y + 1
    } else {
        y
    }, m, d)
}

/// Days from 1970-01-01 to the given date (Hinnant's `days_from_civil`).
pub open spec fn days_from_civil(year: int, month: int, day: int) -> int {
    let y = if month <= 2 {
        year - 1
    } else {
        year
    };
    let era = y / 400;
    let yoe = y - era * 400;
    let mp = if month > 2 {
        month - 3
    } else {
        month + 9
    };
    let doy = (153 * mp + 2) / 5 + day - 1;
    let doe = yoe * 365 + yoe / 4 - yoe / 100 + doy;
    era * 146097 + doe - 719468
}

/// Bounds of the intermediate values of the conversion.
proof fn lemma_civil_parts(days: int)
    ensures
        ({
            let z = days + 719468;
            let era = z / 146097;
            let doe = z - era * 146097;
            let yoe = (doe - doe / 1460 + doe / 36524 - doe / 146096) / 365;
            let doy = doe - (365 * yoe + yoe / 4 - yoe / 100);
            &&& 0 <= doe < 146097
            &&& 0 <= yoe < 400
            &&& 0 <= doy < 366
        }),
{
    let z = days + 719468;
    let era = z / 146097;
    let doe = z - era * 146097;
    assert(0 <= doe < 146097) by (nonlinear_arith)
        requires
            era == z / 146097,
            doe == z - era * 146097,
    ;
    let a = doe / 1460;
    let b = doe / 36524;
    let c = doe / 146096;
    assert(0 <= a && a * 1460 <= doe && doe < a * 1460 + 1460) by (nonlinear_arith)
        requires
            a == doe / 1460,
            0 <= doe,
    ;
    assert(0 <= b && b * 36524 <= doe && doe < b * 36524 + 36524) by (nonlinear_arith)
        requires
            b == doe / 36524,
            0 <= doe,
    ;
    assert(0 <= c && c * 146096 <= doe && doe < c * 146096 + 146096) by (nonlinear_arith)
        requires
            c == doe / 146096,
            0 <= doe,
    ;
    assert(b <= 4);
    assert(c <= 1);
    let num = doe - a + b - c;
    assert(0 <= num);
    assert(num < 146000) by {
        if doe >= 146095 {
            assert(a == 100);
        } else {
            assert(a * 1460 > doe - 1460);
        }
    }
    let yoe = num / 365;
    assert(0 <= yoe && yoe * 365 <= num && num < yoe * 365 + 365) by (nonlinear_arith)
        requires
            yoe == num / 365,
            0 <= num,
    ;
    assert(yoe < 400);
    let p = yoe / 4;
    let q = yoe / 100;
    assert(0 <= p && p * 4 <= yoe && yoe < p * 4 + 4) by (nonlinear_arith)
        requires
            p == yoe / 4,
            0 <= yoe,
    ;
    assert(0 <= q && q * 100 <= yoe && yoe < q * 100 + 100) by (nonlinear_arith)
        requires
            q == yoe / 100,
            0 <= yoe,
    ;
    let doy = doe - (365 * yoe + p - q);
    // doe >= num - b + c + a... in terms of yoe
    assert(doy >= 0) by {
        assert(num >= yoe * 365);
        assert(doe == num + a - b + c);
        // a >= yoe/4 - yoe/100 + b - c  (leap days counted up to doe)
        assert(a * 1460 > doe - 1460);
        assert(doe >= yoe * 365 + a - b + c);
        assert(yoe * 365 <= doe);
        assert(p * 1460 <= yoe * 365) by (nonlinear_arith)
            requires
                p * 4 <= yoe,
        ;
        assert(p <= a) by (nonlinear_arith)
            requires
                p * 1460 <= doe,
                a == doe / 1460,
                0 <= doe,
        ;
        assert(q * 36500 <= yoe * 365) by (nonlinear_arith)
            requires
                q * 100 <= yoe,
        ;
        assert(q <= b + 1);
    }
    assert(doy < 366) by {
        assert(num < yoe * 365 + 365);
        assert(doe == num + a - b + c);
    }
}

/// Days from the epoch to the date `civil_spec` gives are the days it was given.
pub proof fn lemma_civil_round_trip(days: int)
    ensures
        ({
            let c = civil_spec(days);
            days_from_civil(c.0, c.1, c.2) == days && 1 <= c.1 <= 12 && 1 <= c.2 <= 31
        }),
{
    lemma_civil_parts(days);
    let z = days + 719468;
    let era = z / 146097;
    let doe = z - era * 146097;
    let yoe = (doe - doe / 1460 + doe / 36524 - doe / 146096) / 365;
    let y = yoe + era * 400;
    let doy = doe - (365 * yoe + yoe / 4 - yoe / 100);
    let mp = (5 * doy + 2) / 153;
    assert(0 <= mp && mp * 153 <= 5 * doy + 2 && 5 * doy + 2 < mp * 153 + 153) by (nonlinear_arith)
        requires
            mp == (5 * doy + 2) / 153,
            0 <= doy,
    ;
    assert(mp < 12);
    let k = (153 * mp + 2) / 5;
    assert(0 <= k && k * 5 <= 153 * mp + 2 && 153 * mp + 2 < k * 5 + 5) by (nonlinear_arith)
        requires
            k == (153 * mp + 2) / 5,
            0 <= mp,
    ;
    let d = doy - k + 1;
    assert(1 <= d <= 31);
    let m = if mp < 10 {
        mp + 3
    } else {
        mp - 9
    };
    assert(y / 400 == era) by (nonlinear_arith)
        requires
            y == yoe + era * 400,
            0 <= yoe < 400,
    ;
}

/// Timestamp to date: the day is the floor of `ms / DAY_MS`.
pub open spec fn civil_of_millis(ms: int) -> (int, int, int) {
    civil_spec(ms / (DAY_MS as int))
}

/// The date of a day count (days may be negative).
fn civil_from_days(days: i64) -> (r: CivilDate)
    requires
        -200_000_000_000 <= days <= 200_000_000_000,
    ensures
        (r.year as int, r.month as int, r.day as int) == civil_spec(days as int),
{
    proof {
        lemma_civil_parts(days as int);
        lemma_civil_round_trip(days as int);
    }
    let z: i64 = days + 719_468;
    let era: i64 = z.checked_div_euclid(146_097).unwrap();
    let doe: i64 = z - era * 146_097;
    let yoe: i64 = (doe - doe / 1460 + doe / 36524 - doe / 146_096) / 365;
    let y: i64 = yoe + era * 400;
    let doy: i64 = doe - (365 * yoe + yoe / 4 - yoe / 100);
    let mp: i64 = (5 * doy + 2) / 153;
    let d: i64 = doy - (153 * mp + 2) / 5 + 1;
    let m: i64 = if mp < 10 {
        mp + 3
    } else {
        mp - 9
    };
    CivilDate {
        year: if m <= 2 {
            y + 1
        } else {
            y
        },
        month: m as u32,
        day: d as u32,
    }
}

/// Unix milliseconds to the UTC date.
pub fn civil_from_millis(ms: i64) -> (r: CivilDate)
    ensures
        (r.year as int, r.month as int, r.day as int) == civil_of_millis(ms as int),
{
    let days: i64 = ms.checked_div_euclid(DAY_MS).unwrap();
    assert(-200_000_000_000 <= days <= 200_000_000_000) by (nonlinear_arith)
        requires
            days as int == (ms as int) / 86_400_000int,
            i64::MIN <= ms <= i64::MAX,
    ;
    civil_from_days(days)
}

/// The year in a timestamp-like value: a bare year passes through, a
/// `YYYYMMDDhhmm`-like value gives its leading digit group, and millisecond
/// timestamps give their UTC year when it has four digits.
pub open spec fn year_from_epoch_spec(ms: u64) -> Option<u32> {
    if ms < 100_000_000_000 {
        if 1000 <= ms <= 9999 {
            Some(ms as u32)
        } else if 10_000_000_000 <= ms {
            Some((ms / 10_000_000_000) as u32)
        } else {
            None
        }
    } else {
        let signed: int = if ms <= i64::MAX {
            ms as int
        } else {
            ms - 0x1_0000_0000_0000_0000
        };
        let y = civil_of_millis(signed).0;
        if 1000 <= y <= 9999 {
            Some(y as u32)
        } else {
            None
        }
    }
}

/// Year of a 13-digit millisecond timestamp; values that are plainly not one
/// (a bare year) are passed through when they are plausible.
pub fn year_from_epoch_ms(ms: u64) -> (r: Option<u32>)
    ensures
        r == year_from_epoch_spec(ms),
{
    if ms < 100_000_000_000 {
        if 1000 <= ms && ms <= 9999 {
            return Some(ms as u32);
        }
        if 10_000_000_000 <= ms && ms < 100_000_000_000 {
            return Some((ms / 10_000_000_000) as u32);
        }
        return None;
    }
    let signed: i64 = ms as i64;
    assert(signed as int == if ms <= i64::MAX {
        ms as int
    } else {
        ms - 0x1_0000_0000_0000_0000
    }) by (bit_vector)
        requires
            signed == ms as i64,
    ;
    let d = civil_from_millis(signed);
    if 1000 <= d.year && d.year <= 9999 {
        Some(d.year as u32)
    } else {
        None
    }
}

/// The current time as Unix milliseconds (zero if the clock is before 1970).
#[verifier::external_body]
fn unix_millis_now() -> (r: i64) {
    std::time::SystemTime::now().duration_since(std::time::UNIX_EPOCH).map(
        |d| d.as_millis() as i64,
    ).unwrap_or(0)
}

/// `{:04}` of a year: zero-padded to four characters, the sign counting as one.
pub open spec fn year_text(y: int) -> Seq<char> {
    if y < 0 {
        seq!['-'] + padded((-y) as nat, 3)
    } else {
        padded(y as nat, 4)
    }
}

/// `YYYY-MM-DD HH:MM:SS` (UTC) of a Unix millisecond time.
pub open spec fn timestamp_text(ms: int) -> Seq<char> {
    let d = civil_of_millis(ms);
    let secs = (ms / 1000) % 86400;
    year_text(d.0) + seq!['-'] + padded(d.1 as nat, 2) + seq!['-'] + padded(d.2 as nat, 2) + seq![
        ' ',
    ] + padded((secs / 3600) as nat, 2) + seq![':'] + padded(((secs % 3600) / 60) as nat, 2)
        + seq![':'] + padded((secs % 60) as nat, 2)
}

/// Unix milliseconds as `YYYY-MM-DD HH:MM:SS` (UTC).
pub fn format_timestamp(ms: i64) -> (r: String)
    ensures
        r@ == timestamp_text(ms as int),
{
    let d = civil_from_millis(ms);
    let secs_total: i64 = ms.checked_div_euclid(1000).unwrap();
    let secs_in_day: i64 = secs_total.checked_rem_euclid(86_400).unwrap();
    assert(0 <= secs_in_day < 86400) by (nonlinear_arith)
        requires
            secs_in_day == secs_total % 86400i64,
    ;
    let h = secs_in_day / 3600;
    let mi = (secs_in_day % 3600) / 60;
    let s = secs_in_day % 60;
    let mut v: Vec<char> = Vec::new();
    proof {
        lemma_civil_round_trip(ms as int / (DAY_MS as int));
    }
    if d.year < 0 {
        v.push('-');
        assert(d.year > i64::MIN) by (nonlinear_arith)
            requires
                d.year as int == civil_of_millis(ms as int).0,
        ;
        push_padded(&mut v, (-d.year) as u64, 3);
    } else {
        push_padded(&mut v, d.year as u64, 4);
    }
    let ghost ylen = v@;
    v.push('-');
    push_padded(&mut v, d.month as u64, 2);
    v.push('-');
    push_padded(&mut v, d.day as u64, 2);
    v.push(' ');
    push_padded(&mut v, h as u64, 2);
    v.push(':');
    push_padded(&mut v, mi as u64, 2);
    v.push(':');
    push_padded(&mut v, s as u64, 2);
    assert(v@ =~= timestamp_text(ms as int));
    string_of(&v)
}

/// The current time as `YYYY-MM-DD HH:MM:SS` (UTC), for logs and the index.
pub fn now_string() -> (r: String)
    ensures
        exists|ms: i64| r@ == timestamp_text(ms as int),
{
    let ms = unix_millis_now();
    format_timestamp(ms)
}

} // verus!
