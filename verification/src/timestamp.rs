//! RFC 3339 timestamps (`YYYY-MM-DDTHH:MM:SS...`) to UNIX seconds.
//!
//! Only the fixed-position fields are read; whatever follows the seconds
//! (fraction, `Z`, an offset) is ignored, as the usage endpoints report UTC.
use vstd::prelude::*;
use vstd::string::StringSliceAdditionalSpecFns;

verus! {

/// Whether `c` is an ASCII decimal digit.
pub open spec fn is_digit(c: u8) -> bool {
    48 <= c <= 57
}

/// Whether every byte of `d` is an ASCII decimal digit.
pub open spec fn all_digits(d: Seq<u8>) -> bool {
    forall|i: int| 0 <= i < d.len() ==> is_digit(#[trigger] d[i])
}

/// The number written in decimal by the digits `d` (0 for no digits).
pub open spec fn decimal_value(d: Seq<u8>) -> int
    decreases d.len(),
{
    if d.len() == 0 {
        0
    } else {
        decimal_value(d.drop_last()) * 10 + (d.last() - 48)
    }
}

/// `10` to the power `n`.
pub open spec fn pow10(n: nat) -> int
    decreases n,
{
    if n == 0 {
        1
    } else {
        10 * pow10((n - 1) as nat)
    }
}

/// What `i64::from_str` gives for a short field: optional `+` or `-`,
/// then at least one decimal digit, and nothing else.
pub open spec fn int_field(d: Seq<u8>) -> Option<int> {
    if d.len() > 0 && all_digits(d) {
        Some(decimal_value(d))
    } else if d.len() > 1 && d[0] == 43 && all_digits(d.drop_first()) {
        Some(decimal_value(d.drop_first()))
    } else if d.len() > 1 && d[0] == 45 && all_digits(d.drop_first()) {
        Some(-decimal_value(d.drop_first()))
    } else {
        None
    }
}

/// The integer written at byte positions `start..end` of `b`, if that range
/// lies inside `b` and holds one.
pub open spec fn field_at(b: Seq<u8>, start: int, end: int) -> Option<int> {
    if end <= b.len() {
        int_field(b.subrange(start, end))
    } else {
        None
    }
}

/// Rust's `/` on integers: the quotient rounded toward zero (`d > 0`).
pub open spec fn quot(a: int, d: int) -> int {
    if a >= 0 {
        a / d
    } else {
        -((-a) / d)
    }
}

/// Rust's `%` on integers: the remainder that takes the sign of `a` (`d > 0`).
pub open spec fn rem(a: int, d: int) -> int {
    a - d * quot(a, d)
}

/// The day number of year `y`, month `m`, day `d` counted from 1970-01-01,
/// by the era/year-of-era/day-of-year arithmetic of the widget (with
/// `div_euclid` for the era and Rust's `/` and `%` elsewhere).
/// On real calendar dates it is the day count of the proleptic Gregorian
/// calendar: see the lemmas below.
pub open spec fn civil_day(y: int, m: int, d: int) -> int {
    let y = if m <= 2 {
        y - 1
    } else {
        y
    };
    let era = y / 400;
    let yoe = y - era * 400;
    let doy = quot(153 * rem(m + 9, 12) + 2, 5) + d - 1;
    let doe = yoe * 365 + yoe / 4 - yoe / 100 + doy;
    era * 146097 + doe - 719468
}

/// Seconds since the UNIX epoch of the given calendar fields.
pub open spec fn unix_seconds(y: int, m: int, d: int, hh: int, mm: int, ss: int) -> int {
    civil_day(y, m, d) * 86400 + hh * 3600 + mm * 60 + ss
}

/// What `parse_ts` gives for the bytes `b` of a timestamp: the year at bytes
/// 0..4, month 5..7, day 8..10, hour 11..13, minute 14..16, second 17..19,
/// each parsed as an `i64`; `None` as soon as one of them is missing.
pub open spec fn timestamp_seconds(b: Seq<u8>) -> Option<int> {
    match (
        field_at(b, 0, 4),
        field_at(b, 5, 7),
        field_at(b, 8, 10),
        field_at(b, 11, 13),
        field_at(b, 14, 16),
        field_at(b, 17, 19),
    ) {
        (Some(y), Some(m), Some(d), Some(hh), Some(mm), Some(ss)) => Some(
            unix_seconds(y, m, d, hh, mm, ss),
        ),
        _ => None,
    }
}

/// An `Option<i64>` seen as an optional mathematical integer.
pub open spec fn opt_int(o: Option<i64>) -> Option<int> {
    match o {
        Some(v) => Some(v as int),
        None => None,
    }
}

/// Gregorian leap years: divisible by 4, and by 400 where divisible by 100.
pub open spec fn is_leap_year(y: int) -> bool {
    y % 4 == 0 && (y % 100 != 0 || y % 400 == 0)
}

/// The number of days in month `m` (1 to 12) of year `y`.
pub open spec fn days_in_month(y: int, m: int) -> int {
    if m == 2 {
        if is_leap_year(y) {
            29
        } else {
            28
        }
    } else if m == 4 || m == 6 || m == 9 || m == 11 {
        30
    } else {
        31
    }
}

/// 1970-01-01 is day 0, so `parse_ts("1970-01-01T00:00:00Z")` is 0.
pub proof fn lemma_epoch_is_day_zero()
    ensures
        civil_day(1970, 1, 1) == 0,
        unix_seconds(1970, 1, 1, 0, 0, 0) == 0,
{
}

/// Inside a month, each day is one day after the day before it.
pub proof fn lemma_next_day_in_month(y: int, m: int, d: int)
    requires
        1 <= m <= 12,
        1 <= d < days_in_month(y, m),
    ensures
        civil_day(y, m, d + 1) == civil_day(y, m, d) + 1,
{
}

/// Day number, counted from the same origin as `civil_day`, of March 1st of year `p`.
spec fn march_first(p: int) -> int {
    let era = p / 400;
    let yoe = p - era * 400;
    era * 146097 + yoe * 365 + yoe / 4 - yoe / 100
}

proof fn lemma_civil_day_march_first(y: int, m: int, d: int)
    requires
        1 <= m <= 12,
    ensures
        civil_day(y, m, d) == march_first(if m <= 2 { y - 1 } else { y }) + (153 * ((m + 9) % 12)
            + 2) / 5 + d - 1 - 719468,
{
}

proof fn lemma_year_length(y: int)
    ensures
        march_first(y) == march_first(y - 1) + 365 + (if is_leap_year(y) { 1int } else { 0 }),
{
    let p = y - 1;
    let era = p / 400;
    let yoe = p - era * 400;
    assert(0 <= yoe < 400);
    if yoe < 399 {
        assert(y / 400 == era);
        assert(y % 4 == (yoe + 1) % 4);
        assert(y % 100 == (yoe + 1) % 100);
        assert(y % 400 == yoe + 1);
    } else {
        assert(y / 400 == era + 1);
        assert(y % 400 == 0);
    }
}

/// The first day of a month comes one day after the last day of the month before,
/// February having 29 days exactly in leap years.
pub proof fn lemma_next_month(y: int, m: int)
    requires
        1 <= m < 12,
    ensures
        civil_day(y, m + 1, 1) == civil_day(y, m, days_in_month(y, m)) + 1,
{
    lemma_civil_day_march_first(y, m + 1, 1);
    lemma_civil_day_march_first(y, m, days_in_month(y, m));
    if m == 2 {
        lemma_year_length(y);
    }
}

/// January 1st comes one day after December 31st of the year before.
pub proof fn lemma_next_year(y: int)
    ensures
        civil_day(y + 1, 1, 1) == civil_day(y, 12, 31) + 1,
{
}

/// A day lasts 86400 seconds: the same clock time on the next calendar day
/// is 86400 seconds later.
pub proof fn lemma_next_day_seconds(y: int, m: int, d: int, hh: int, mm: int, ss: int)
    requires
        1 <= m <= 12,
        1 <= d < days_in_month(y, m),
    ensures
        unix_seconds(y, m, d + 1, hh, mm, ss) == unix_seconds(y, m, d, hh, mm, ss) + 86400,
{
    lemma_next_day_in_month(y, m, d);
}

/// Only the first 19 bytes are read: a fraction, `Z` or an offset after the
/// seconds changes nothing.
pub proof fn lemma_suffix_ignored(b: Seq<u8>, t: Seq<u8>)
    requires
        b.len() >= 19,
    ensures
        timestamp_seconds(b + t) == timestamp_seconds(b),
{
    let c = b + t;
    assert(c.subrange(0, 4) =~= b.subrange(0, 4));
    assert(c.subrange(5, 7) =~= b.subrange(5, 7));
    assert(c.subrange(8, 10) =~= b.subrange(8, 10));
    assert(c.subrange(11, 13) =~= b.subrange(11, 13));
    assert(c.subrange(14, 16) =~= b.subrange(14, 16));
    assert(c.subrange(17, 19) =~= b.subrange(17, 19));
}

proof fn lemma_decimal_bound(d: Seq<u8>)
    requires
        all_digits(d),
    ensures
        0 <= decimal_value(d) < pow10(d.len()),
    decreases d.len(),
{
    if d.len() > 0 {
        assert(all_digits(d.drop_last()));
        lemma_decimal_bound(d.drop_last());
        assert(is_digit(d[d.len() - 1]));
    }
}

/// Reads the decimal digits at `first..end` of `b`; `None` if one is not a digit.
fn parse_digits(b: &[u8], first: usize, end: usize) -> (r: Option<i64>)
    requires
        first <= end <= b.len(),
        end - first <= 4,
    ensures
        r is Some <==> all_digits(b@.subrange(first as int, end as int)),
        r matches Some(v) ==> v as int == decimal_value(b@.subrange(first as int, end as int)),
        r matches Some(v) ==> 0 <= v < pow10((end - first) as nat),
{
    let mut i = first;
    let mut acc: i64 = 0;
    assert(b@.subrange(first as int, first as int) =~= Seq::<u8>::empty());
    assert(pow10(4) == 10000) by {
        reveal_with_fuel(pow10, 5);
    }
    while i < end
        invariant
            first <= i <= end <= b.len(),
            end - first <= 4,
            all_digits(b@.subrange(first as int, i as int)),
            acc as int == decimal_value(b@.subrange(first as int, i as int)),
            0 <= acc < pow10((i - first) as nat),
            pow10(4) == 10000,
        decreases end - i,
    {
        let c = b[i];
        if c < 48 || c > 57 {
            assert(b@.subrange(first as int, end as int)[i - first] == c);
            return None;
        }
        proof {
            let s1 = b@.subrange(first as int, i + 1);
            assert(s1.drop_last() =~= b@.subrange(first as int, i as int));
            assert(pow10((i + 1 - first) as nat) == 10 * pow10((i - first) as nat));
            assert(pow10((i - first) as nat) <= 1000) by {
                reveal_with_fuel(pow10, 4);
            }
            assert forall|k: int| 0 <= k < s1.len() implies is_digit(#[trigger] s1[k]) by {
                if k < s1.len() - 1 {
                    assert(s1[k] == b@.subrange(first as int, i as int)[k]);
                }
            }
        }
        acc = acc * 10 + (c - 48) as i64;
        i = i + 1;
    }
    Some(acc)
}

/// Parses the integer at `start..end` of `b` as `s.get(start..end)?.parse::<i64>().ok()` does.
fn parse_field(b: &[u8], start: usize, end: usize) -> (r: Option<i64>)
    requires
        start < end <= start + 4,
    ensures
        opt_int(r) == field_at(b@, start as int, end as int),
        r matches Some(v) ==> -pow10((end - start - 1) as nat) < v < pow10((end - start) as nat),
{
    if end > b.len() {
        return None;
    }
    let ghost d = b@.subrange(start as int, end as int);
    assert(d.drop_first() =~= b@.subrange(start + 1, end as int));
    assert(pow10((end - start) as nat) == 10 * pow10((end - start - 1) as nat));
    assert(pow10((end - start - 1) as nat) >= 1) by {
        reveal_with_fuel(pow10, 5);
    }
    if b[start] == 43 || b[start] == 45 {
        assert(!is_digit(d[0]));
        if start + 1 == end {
            return None;
        }
        match parse_digits(b, start + 1, end) {
            Some(v) => {
                if b[start] == 45 {
                    Some(-v)
                } else {
                    Some(v)
                }
            },
            None => None,
        }
    } else {
        parse_digits(b, start, end)
    }
}

/// Floor of `a / 400`, as `i64::div_euclid` gives it.
fn div_euclid_400(a: i64) -> (q: i64)
    requires
        -100_000 <= a <= 100_000,
    ensures
        q as int == a as int / 400,
{
    if a >= 0 {
        a / 400
    } else {
        let q = -((-a + 399) / 400);
        assert(q as int == a as int / 400) by (nonlinear_arith)
            requires
                a < 0,
                q == -((-a + 399) / 400),
        ;
        q
    }
}

/// The UNIX time of an RFC 3339 timestamp such as `2026-09-22T09:38:12.943648+00:00`:
/// the year, month, day, hour, minute and second at their fixed positions,
/// each read as an integer (optionally signed); `None` where one is missing.
pub fn parse_ts(s: &str) -> (r: Option<i64>)
    ensures
        opt_int(r) == timestamp_seconds(s.spec_bytes()),
{
    let b = s.as_bytes();
    let y = match parse_field(b, 0, 4) {
        Some(v) => v,
        None => return None,
    };
    let m = match parse_field(b, 5, 7) {
        Some(v) => v,
        None => return None,
    };
    let d = match parse_field(b, 8, 10) {
        Some(v) => v,
        None => return None,
    };
    let hh = match parse_field(b, 11, 13) {
        Some(v) => v,
        None => return None,
    };
    let mm = match parse_field(b, 14, 16) {
        Some(v) => v,
        None => return None,
    };
    let ss = match parse_field(b, 17, 19) {
        Some(v) => v,
        None => return None,
    };
    assert(pow10(1) == 10 && pow10(2) == 100 && pow10(3) == 1000 && pow10(4) == 10000) by {
        reveal_with_fuel(pow10, 5);
    }
    let y = if m <= 2 {
        y - 1
    } else {
        y
    };
    let era = div_euclid_400(y);
    let yoe = y - era * 400;
    let doy = (153 * ((m + 9) % 12) + 2) / 5 + d - 1;
    let doe = yoe * 365 + yoe / 4 - yoe / 100 + doy;
    Some((era * 146097 + doe - 719468) * 86400 + hh * 3600 + mm * 60 + ss)
}

} // verus!
