//! Times: Unix seconds, the Gregorian calendar, and ISO 8601 in UTC as
//! the protocol writes them (`2026-09-20T17:12:00Z`).
//!
//! Years 1 to 9999 are covered, which is every time a tide table or the
//! protocol has any use for.

use vstd::prelude::*;
use vstd::string::StringExecFns;
use crate::strings::{push_char, digit_char, digits_value, all_digits, is_digit, chars_of};

verus! {

/// A leap year of the Gregorian calendar.
pub open spec fn is_leap(y: int) -> bool {
    (y % 4 == 0 && y % 100 != 0) || y % 400 == 0
}

/// The days in a month.
pub open spec fn days_in_month(y: int, m: int) -> int {
    if m == 2 {
        if is_leap(y) { 29 } else { 28 }
    } else if m == 4 || m == 6 || m == 9 || m == 11 {
        30
    } else {
        31
    }
}

/// The days of a year before the first of a month.
pub open spec fn days_before_month(y: int, m: int) -> int {
    let base: int = if m == 1 { 0 } else if m == 2 { 31 } else if m == 3 { 59 } else if m == 4 { 90 }
        else if m == 5 { 120 } else if m == 6 { 151 } else if m == 7 { 181 } else if m == 8 { 212 }
        else if m == 9 { 243 } else if m == 10 { 273 } else if m == 11 { 304 } else { 334 };
    if m > 2 && is_leap(y) { base + 1 } else { base }
}

/// Leap years from year 1 to year `n`.
pub open spec fn leaps_through(n: int) -> int {
    n / 4 - n / 100 + n / 400
}

/// Days from 1970 January 1 to January 1 of a year.
pub open spec fn days_before_year(y: int) -> int {
    365 * (y - 1970) + leaps_through(y - 1) - leaps_through(1969)
}

/// A date of years 1 to 9999.
pub open spec fn valid_date(y: int, m: int, d: int) -> bool {
    1 <= y <= 9999 && 1 <= m <= 12 && 1 <= d <= days_in_month(y, m)
}

/// Days from 1970 January 1 to a date.
pub open spec fn days_from_civil(y: int, m: int, d: int) -> int {
    days_before_year(y) + days_before_month(y, m) + d - 1
}

/// Unix seconds for a moment in UTC.
pub open spec fn unix_spec(y: int, mo: int, d: int, h: int, mi: int, s: int) -> int {
    days_from_civil(y, mo, d) * 86400 + h * 3600 + mi * 60 + s
}

/// The first second of year 1, and the last of year 9999.
pub open spec fn earliest() -> int {
    days_before_year(1) * 86400
}

pub open spec fn latest() -> int {
    days_before_year(10000) * 86400 - 1
}

/// Where the clock's fields sit in a count of seconds: the second of the
/// minute is what is left over sixty, the minute of the hour what is left
/// over an hour, counted in minutes, and the hour of the day what is left
/// over a day, counted in hours.
proof fn lemma_clock(z: int, h: int, mi: int, s: int)
    requires
        0 <= h < 24,
        0 <= mi < 60,
        0 <= s < 60,
    ensures
        (z * 86400 + h * 3600 + mi * 60 + s) % 60 == s,
        (z * 86400 + h * 3600 + mi * 60 + s) % 3600 / 60 == mi,
        (z * 86400 + h * 3600 + mi * 60 + s) % 86400 / 3600 == h,
{
    let t = z * 86400 + h * 3600 + mi * 60 + s;
    assert(t == (z * 1440 + h * 60 + mi) * 60 + s) by (nonlinear_arith)
        requires
            t == z * 86400 + h * 3600 + mi * 60 + s,
    ;
    vstd::arithmetic::div_mod::lemma_fundamental_div_mod_converse(t, 60, z * 1440 + h * 60 + mi, s);
    assert(t == (z * 24 + h) * 3600 + (mi * 60 + s)) by (nonlinear_arith)
        requires
            t == z * 86400 + h * 3600 + mi * 60 + s,
    ;
    vstd::arithmetic::div_mod::lemma_fundamental_div_mod_converse(t, 3600, z * 24 + h, mi * 60 + s);
    vstd::arithmetic::div_mod::lemma_fundamental_div_mod_converse(mi * 60 + s, 60, mi, s);
    assert(t == z * 86400 + (h * 3600 + mi * 60 + s)) by (nonlinear_arith)
        requires
            t == z * 86400 + h * 3600 + mi * 60 + s,
    ;
    vstd::arithmetic::div_mod::lemma_fundamental_div_mod_converse(t, 86400, z, h * 3600 + mi * 60 + s);
    vstd::arithmetic::div_mod::lemma_fundamental_div_mod_converse(h * 3600 + mi * 60 + s, 3600, h, mi * 60 + s);
}

/// What a moment's Unix seconds are made of. The epoch, 1970 January 1 at
/// midnight, is second 0; a second later is one more, a minute later
/// sixty more, an hour 3600 and a day 86400; and from the count back,
/// what is left over a minute is the second, over an hour the minute and
/// over a day the hour, each in its own place.
pub proof fn lemma_unix_seconds(y: int, mo: int, d: int, h: int, mi: int, s: int)
    requires
        valid_date(y, mo, d),
        0 <= h < 24,
        0 <= mi < 60,
        0 <= s < 60,
    ensures
        unix_spec(1970, 1, 1, 0, 0, 0) == 0,
        unix_spec(y, mo, d, h, mi, s + 1) == unix_spec(y, mo, d, h, mi, s) + 1,
        unix_spec(y, mo, d, h, mi + 1, s) == unix_spec(y, mo, d, h, mi, s) + 60,
        unix_spec(y, mo, d, h + 1, mi, s) == unix_spec(y, mo, d, h, mi, s) + 3600,
        unix_spec(y, mo, d + 1, h, mi, s) == unix_spec(y, mo, d, h, mi, s) + 86400,
        unix_spec(y, mo, d, h, mi, s) % 60 == s,
        unix_spec(y, mo, d, h, mi, s) % 3600 / 60 == mi,
        unix_spec(y, mo, d, h, mi, s) % 86400 / 3600 == h,
        unix_spec(y, mo, d, 0, 0, 0) % 86400 == 0,
{
    assert(leaps_through(1969) == 477);
    lemma_clock(days_from_civil(y, mo, d), h, mi, s);
    lemma_clock(days_from_civil(y, mo, d), 0, 0, 0);
}

/// A year is 365 days, or 366 in a leap year.
pub proof fn lemma_year_length(y: int)
    requires
        y >= 1,
    ensures
        days_before_year(y + 1) - days_before_year(y) == if is_leap(y) { 366int } else { 365int },
{
    assert(leaps_through(y) - leaps_through(y - 1) == (if y % 4 == 0 { 1int } else { 0int }) - (if y % 100 == 0 { 1int } else { 0int }) + (if y % 400 == 0 { 1int } else { 0int }));
}

/// Later years start later.
pub proof fn lemma_years_rise(a: int, b: int)
    requires
        1 <= a <= b,
    ensures
        days_before_year(a) + 365 * (b - a) <= days_before_year(b),
    decreases b - a,
{
    if a < b {
        lemma_years_rise(a, b - 1);
        lemma_year_length(b - 1);
    }
}

/// Days from 1970 January 1 to January 1 of a year.
fn year_start(y: i64) -> (r: i64)
    requires
        1 <= y <= 10000,
    ensures
        r == days_before_year(y as int),
{
    365 * (y - 1970) + (y - 1) / 4 - (y - 1) / 100 + (y - 1) / 400 - 477
}

/// The days of a year before the first of a month.
fn month_start(y: i64, m: i64) -> (r: i64)
    requires
        1 <= y <= 9999,
        1 <= m <= 12,
    ensures
        r == days_before_month(y as int, m as int),
{
    let base: i64 = if m == 1 { 0 } else if m == 2 { 31 } else if m == 3 { 59 } else if m == 4 { 90 }
        else if m == 5 { 120 } else if m == 6 { 151 } else if m == 7 { 181 } else if m == 8 { 212 }
        else if m == 9 { 243 } else if m == 10 { 273 } else if m == 11 { 304 } else { 334 };
    let leap = (y % 4 == 0 && y % 100 != 0) || y % 400 == 0;
    if m > 2 && leap { base + 1 } else { base }
}

/// Unix seconds for a moment in UTC.
pub fn unix(y: i64, mo: i64, d: i64, h: i64, mi: i64, s: i64) -> (r: i64)
    requires
        valid_date(y as int, mo as int, d as int),
        0 <= h < 24,
        0 <= mi < 60,
        0 <= s < 60,
    ensures
        r == unix_spec(y as int, mo as int, d as int, h as int, mi as int, s as int),
{
    let days = year_start(y) + month_start(y, mo) + d - 1;
    days * 86400 + h * 3600 + mi * 60 + s
}

/// The date of a day counted from 1970 January 1.
pub fn civil_from_days(z: i64) -> (r: (i64, i64, i64))
    requires
        days_before_year(1) <= z < days_before_year(10000),
    ensures
        valid_date(r.0 as int, r.1 as int, r.2 as int),
        days_from_civil(r.0 as int, r.1 as int, r.2 as int) == z,
{
    let mut y: i64 = 1970 + z / 366;
    proof {
        assert(days_before_year(1) == -719162);
        assert(days_before_year(10000) == 2932897);
    }
    while year_start(y) > z
        invariant
            1 <= y <= 9999,
            days_before_year(1) <= z < days_before_year(10000),
        decreases y,
    {
        proof {
            if y == 1 {
                assert(false);
            }
        }
        y -= 1;
    }
    while year_start(y + 1) <= z
        invariant
            1 <= y <= 9999,
            days_before_year(y as int) <= z,
            days_before_year(1) <= z < days_before_year(10000),
        decreases 10000 - y,
    {
        proof {
            if y + 1 >= 10000 {
                lemma_years_rise(y + 1, 10000);
                assert(false);
            }
        }
        y += 1;
    }
    let rest = z - year_start(y);
    proof {
        lemma_year_length(y as int);
    }
    let mut m: i64 = 1;
    while m < 12 && month_start(y, m + 1) <= rest
        invariant
            1 <= m <= 12,
            1 <= y <= 9999,
            days_before_month(y as int, m as int) <= rest,
        decreases 12 - m,
    {
        m += 1;
    }
    let d = rest - month_start(y, m) + 1;
    (y, m, d)
}

/// The year a moment falls in, UTC.
pub fn year_of(t: i64) -> (y: i64)
    requires
        earliest() <= t <= latest(),
    ensures
        1 <= y <= 9999,
        days_before_year(y as int) * 86400 <= t < days_before_year(y + 1) * 86400,
{
    let z = day_of(t);
    let (y, m, d) = civil_from_days(z);
    proof {
        lemma_year_length(y as int);
        assert(days_before_month(y as int, m as int) + d - 1 < days_before_year(y + 1) - days_before_year(y as int));
    }
    y
}

/// The day a moment falls in, counted from 1970 January 1, rounding
/// down for moments before it.
fn day_of(t: i64) -> (z: i64)
    ensures
        z == t as int / 86400,
        z * 86400 <= t < z * 86400 + 86400,
{
    if t >= 0 {
        t / 86400
    } else {
        let u: i64 = -(t + 1);
        let q: i64 = u / 86400;
        -q - 1
    }
}

/// The middle of a year, when NOAA works out the node factors it holds
/// for the whole of it: July 2 at noon.
pub fn mid_year(y: i64) -> (r: i64)
    requires
        1 <= y <= 9999,
    ensures
        r == unix_spec(y as int, 7, 2, 12, 0, 0),
{
    unix(y, 7, 2, 12, 0, 0)
}

/// A number in exactly `w` decimal digits, with leading zeros.
pub open spec fn padded(n: nat, w: nat) -> Seq<char>
    decreases w,
{
    if w == 0 {
        Seq::empty()
    } else {
        padded(n / 10, (w - 1) as nat).push(digit_char(n % 10))
    }
}

proof fn lemma_padded_reads_back(n: nat, w: nat)
    requires
        n < pow10(w),
    ensures
        padded(n, w).len() == w,
        all_digits(padded(n, w)),
        digits_value(padded(n, w)) == n,
    decreases w,
{
    if w > 0 {
        assert(n / 10 < pow10((w - 1) as nat)) by (nonlinear_arith)
            requires
                n < pow10(w),
                pow10(w) == 10 * pow10((w - 1) as nat),
        ;
        lemma_padded_reads_back(n / 10, (w - 1) as nat);
        let p = padded(n, w);
        assert(p.drop_last() =~= padded(n / 10, (w - 1) as nat));
        assert forall|i: int| 0 <= i < p.len() implies is_digit(#[trigger] p[i]) by {
            if i < p.len() - 1 {
                assert(p[i] == p.drop_last()[i]);
            }
        }
    }
}

pub open spec fn pow10(w: nat) -> nat
    decreases w,
{
    if w == 0 { 1 } else { 10 * pow10((w - 1) as nat) }
}

/// A moment written as ISO 8601 in UTC.
pub open spec fn iso_text(y: nat, mo: nat, d: nat, h: nat, mi: nat, s: nat) -> Seq<char> {
    padded(y, 4) + seq!['-'] + padded(mo, 2) + seq!['-'] + padded(d, 2) + seq!['T']
        + padded(h, 2) + seq![':'] + padded(mi, 2) + seq![':'] + padded(s, 2) + seq!['Z']
}

/// The number in the characters from `a` to `b`.
pub open spec fn field(s: Seq<char>, a: int, b: int) -> nat {
    digits_value(s.subrange(a, b))
}

/// The shape of `2026-09-20T17:12:00Z`.
pub open spec fn iso_shape(s: Seq<char>) -> bool {
    &&& s.len() == 20
    &&& s[4] == '-' && s[7] == '-' && s[10] == 'T' && s[13] == ':' && s[16] == ':' && s[19] == 'Z'
    &&& all_digits(s.subrange(0, 4)) && all_digits(s.subrange(5, 7)) && all_digits(s.subrange(8, 10))
    &&& all_digits(s.subrange(11, 13)) && all_digits(s.subrange(14, 16)) && all_digits(s.subrange(17, 19))
}

/// The moment an ISO 8601 UTC time names, when it is one.
pub open spec fn parse_iso_spec(s: Seq<char>) -> Option<i64> {
    if iso_shape(s) && valid_date(field(s, 0, 4) as int, field(s, 5, 7) as int, field(s, 8, 10) as int)
        && field(s, 11, 13) < 24 && field(s, 14, 16) < 60 && field(s, 17, 19) < 60 {
        Some(unix_spec(field(s, 0, 4) as int, field(s, 5, 7) as int, field(s, 8, 10) as int,
            field(s, 11, 13) as int, field(s, 14, 16) as int, field(s, 17, 19) as int) as i64)
    } else {
        None
    }
}

/// Appends a number in exactly `w` decimal digits.
fn push_padded(s: &mut String, n: u64, w: u64)
    ensures
        final(s)@ == old(s)@ + padded(n as nat, w as nat),
    decreases w,
{
    if w > 0 {
        push_padded(s, n / 10, w - 1);
        push_char(s, (((n % 10) as u8) + 48) as char);
    }
}

/// A moment written as ISO 8601 in UTC, to the second. It reads back as
/// the same moment.
pub fn iso(t: i64) -> (r: String)
    requires
        earliest() <= t <= latest(),
    ensures
        exists|y: nat, mo: nat, d: nat, h: nat, mi: nat, s: nat|
            valid_date(y as int, mo as int, d as int) && h < 24 && mi < 60 && s < 60
            && unix_spec(y as int, mo as int, d as int, h as int, mi as int, s as int) == t
            && r@ == #[trigger] iso_text(y, mo, d, h, mi, s),
        parse_iso_spec(r@) == Some(t),
        r@.len() == 20,
        field(r@, 11, 13) == t % 86400 / 3600,
        field(r@, 14, 16) == t % 3600 / 60,
        field(r@, 17, 19) == t % 60,
{
    let z = day_of(t);
    let secs = t - z * 86400;
    let (y, mo, d) = civil_from_days(z);
    let h = secs / 3600;
    let mi = (secs % 3600) / 60;
    let s = secs % 60;
    let mut r = String::new();
    push_padded(&mut r, y as u64, 4);
    push_char(&mut r, '-');
    push_padded(&mut r, mo as u64, 2);
    push_char(&mut r, '-');
    push_padded(&mut r, d as u64, 2);
    push_char(&mut r, 'T');
    push_padded(&mut r, h as u64, 2);
    push_char(&mut r, ':');
    push_padded(&mut r, mi as u64, 2);
    push_char(&mut r, ':');
    push_padded(&mut r, s as u64, 2);
    push_char(&mut r, 'Z');
    proof {
        assert(t == z * 86400 + h * 3600 + mi * 60 + s);
        assert(r@ =~= iso_text(y as nat, mo as nat, d as nat, h as nat, mi as nat, s as nat));
        lemma_iso_reads_back(y as nat, mo as nat, d as nat, h as nat, mi as nat, s as nat);
        lemma_clock(z as int, h as int, mi as int, s as int);
    }
    r
}

/// What `iso` writes, `parse_iso` reads back as the same moment.
pub proof fn lemma_iso_reads_back(y: nat, mo: nat, d: nat, h: nat, mi: nat, s: nat)
    requires
        valid_date(y as int, mo as int, d as int),
        h < 24,
        mi < 60,
        s < 60,
    ensures
        parse_iso_spec(iso_text(y, mo, d, h, mi, s))
            == Some(unix_spec(y as int, mo as int, d as int, h as int, mi as int, s as int) as i64),
        iso_text(y, mo, d, h, mi, s).len() == 20,
        field(iso_text(y, mo, d, h, mi, s), 0, 4) == y,
        field(iso_text(y, mo, d, h, mi, s), 5, 7) == mo,
        field(iso_text(y, mo, d, h, mi, s), 8, 10) == d,
        field(iso_text(y, mo, d, h, mi, s), 11, 13) == h,
        field(iso_text(y, mo, d, h, mi, s), 14, 16) == mi,
        field(iso_text(y, mo, d, h, mi, s), 17, 19) == s,
{
    let text = iso_text(y, mo, d, h, mi, s);
    reveal_with_fuel(pow10, 5);
    assert(pow10(2) == 100);
    assert(pow10(4) == 10000);
    lemma_padded_reads_back(y, 4);
    lemma_padded_reads_back(mo, 2);
    lemma_padded_reads_back(d, 2);
    lemma_padded_reads_back(h, 2);
    lemma_padded_reads_back(mi, 2);
    lemma_padded_reads_back(s, 2);
    assert(text.subrange(0, 4) =~= padded(y, 4));
    assert(text.subrange(5, 7) =~= padded(mo, 2));
    assert(text.subrange(8, 10) =~= padded(d, 2));
    assert(text.subrange(11, 13) =~= padded(h, 2));
    assert(text.subrange(14, 16) =~= padded(mi, 2));
    assert(text.subrange(17, 19) =~= padded(s, 2));
}

/// The number written by the digits from `a` to `b`, if they all are.
fn digits_between(v: &Vec<char>, a: usize, b: usize) -> (r: Option<u64>)
    requires
        a <= b <= v@.len(),
        b - a <= 4,
    ensures
        match r {
            Some(n) => all_digits(v@.subrange(a as int, b as int)) && n == digits_value(v@.subrange(a as int, b as int))
                && n < pow10((b - a) as nat),
            None => !all_digits(v@.subrange(a as int, b as int)),
        },
{
    let mut value: u64 = 0;
    let mut i = a;
    while i < b
        invariant
            a <= i <= b,
            b <= v@.len(),
            b - a <= 4,
            forall|j: int| a <= j < i ==> is_digit(#[trigger] v@[j]),
            value == digits_value(v@.subrange(a as int, i as int)),
            value < pow10((i - a) as nat),
        decreases b - i,
    {
        let c = v[i];
        if !('0' <= c && c <= '9') {
            assert(v@.subrange(a as int, b as int)[i - a] == c);
            return None;
        }
        assert(v@.subrange(a as int, i + 1).drop_last() =~= v@.subrange(a as int, i as int));
        assert(v@.subrange(a as int, i + 1).last() == c);
        proof {
            reveal_with_fuel(pow10, 5);
            assert(pow10((i + 1 - a) as nat) == 10 * pow10((i - a) as nat));
            assert(pow10(4) == 10000);
            assert((i - a) < 4 ==> pow10((i - a) as nat) <= 1000);
        }
        value = value * 10 + ((c as u64) - 48);
        i += 1;
    }
    proof {
        assert forall|j: int| 0 <= j < v@.subrange(a as int, b as int).len() implies is_digit(#[trigger] v@.subrange(a as int, b as int)[j]) by {
            assert(v@.subrange(a as int, b as int)[j] == v@[a + j]);
        }
    }
    Some(value)
}

/// The moment an ISO 8601 UTC time like `2026-09-20T17:00:00Z` names.
#[verifier::rlimit(60)]
pub fn parse_iso(text: &str) -> (r: Option<i64>)
    ensures
        r == parse_iso_spec(text@),
{
    let v = chars_of(text);
    if v.len() != 20 || v[4] != '-' || v[7] != '-' || v[10] != 'T' || v[13] != ':' || v[16] != ':' || v[19] != 'Z' {
        return None;
    }
    let y = digits_between(&v, 0, 4);
    let mo = digits_between(&v, 5, 7);
    let d = digits_between(&v, 8, 10);
    let h = digits_between(&v, 11, 13);
    let mi = digits_between(&v, 14, 16);
    let s = digits_between(&v, 17, 19);
    proof {
        reveal_with_fuel(pow10, 5);
        assert(pow10(4) == 10000);
        assert(pow10(2) == 100);
        assert(iso_shape(text@) == (y is Some && mo is Some && d is Some && h is Some && mi is Some && s is Some));
    }
    match (y, mo, d, h, mi, s) {
        (Some(y), Some(mo), Some(d), Some(h), Some(mi), Some(s)) => {
            if y < 1 || mo < 1 || mo > 12 || d < 1 || h >= 24 || mi >= 60 || s >= 60 {
                return None;
            }
            let y = y as i64;
            let mo = mo as i64;
            let leap = (y % 4 == 0 && y % 100 != 0) || y % 400 == 0;
            let dim: u64 = if mo == 2 {
                if leap { 29 } else { 28 }
            } else if mo == 4 || mo == 6 || mo == 9 || mo == 11 {
                30
            } else {
                31
            };
            if d > dim {
                return None;
            }
            Some(unix(y, mo, d as i64, h as i64, mi as i64, s as i64))
        },
        _ => None,
    }
}

} // verus!
