//! Calendar arithmetic for Unix timestamps and ISO 8601 date-times (UTC).
use vstd::prelude::*;

use crate::text::{
    chars_of, is_digit, lemma_decimal_len, lemma_padded_digits, pow10, decimal, abs, zeros, lemma_parse_padded, lemma_split_concat,
    lemma_split_none, padded, parse_int, parse_int_chars, push_padded, split_chars, split_on,
    strip_trailing, strip_trailing_chars, string_of, views,
};

verus! {

// ---------------------------------------------------------------------------
// The calendar
// ---------------------------------------------------------------------------

/// Whether `y` is a leap year of the proleptic Gregorian calendar.
pub open spec fn leap_year(y: int) -> bool {
    y % 4 == 0 && (y % 100 != 0 || y % 400 == 0)
}

/// The number of days of year `y`.
pub open spec fn year_len(y: int) -> int {
    if leap_year(y) { 366 } else { 365 }
}

/// The number of days of month `m` of year `y`, with January as month 0.
pub open spec fn month_len(y: int, m: int) -> int {
    if m == 1 {
        if leap_year(y) { 29 } else { 28 }
    } else if m == 3 || m == 5 || m == 8 || m == 10 {
        30
    } else {
        31
    }
}

/// The days of the years from 1970 up to (not including) `y`; none for
/// years before 1970.
pub open spec fn days_before_year(y: int) -> int
    decreases y - 1970,
{
    if y <= 1970 { 0 } else { days_before_year(y - 1) + year_len(y - 1) }
}

/// The days of the first `m` months of year `y`.
pub open spec fn days_before_month(y: int, m: int) -> int
    decreases m,
{
    if m <= 0 { 0 } else { days_before_month(y, m - 1) + month_len(y, m - 1) }
}

/// Walks whole years forward from year `y` while at least a year of the
/// `d` remaining days is left; gives the year reached and the days left.
pub open spec fn civil_year(y: int, d: int) -> (int, int)
    decreases d,
{
    if d < year_len(y) { (y, d) } else { civil_year(y + 1, d - year_len(y)) }
}

/// Walks whole months of year `y` forward from month `m` (January is 0)
/// while at least a month of the `d` remaining days is left; gives the month
/// reached and the days left.
pub open spec fn civil_month(y: int, m: int, d: int) -> (int, int)
    decreases 12 - m,
{
    if m < 12 && d >= month_len(y, m) {
        civil_month(y, m + 1, d - month_len(y, m))
    } else {
        (m, d)
    }
}

/// Integer division rounding toward zero, as Rust's `/` does.
pub open spec fn tdiv(a: int, b: int) -> int {
    if a >= 0 { a / b } else { -((-a) / b) }
}

/// The remainder that goes with `tdiv`, as Rust's `%` gives it.
pub open spec fn trem(a: int, b: int) -> int {
    a - b * tdiv(a, b)
}

/// Gregorian leap-year test.
pub fn is_leap(y: i64) -> (b: bool)
    ensures
        b == leap_year(y as int),
{
    y % 4 == 0 && (y % 100 != 0 || y % 400 == 0)
}

/// The Gregorian calendar: a year is a leap year when divisible by 4,
/// except centuries not divisible by 400; January to December have 31, 28
/// (29 in a leap year), 31, 30, 31, 30, 31, 31, 30, 31, 30 and 31 days,
/// which make up the 365 or 366 days of the year.
pub proof fn law_gregorian_calendar(y: int)
    ensures
        leap_year(y) <==> (y % 4 == 0 && y % 100 != 0) || y % 400 == 0,
        month_len(y, 0) == 31,
        month_len(y, 1) == if y % 4 == 0 && (y % 100 != 0 || y % 400 == 0) { 29int } else { 28int },
        month_len(y, 2) == 31,
        month_len(y, 3) == 30,
        month_len(y, 4) == 31,
        month_len(y, 5) == 30,
        month_len(y, 6) == 31,
        month_len(y, 7) == 31,
        month_len(y, 8) == 30,
        month_len(y, 9) == 31,
        month_len(y, 10) == 30,
        month_len(y, 11) == 31,
        year_len(y) == if y % 4 == 0 && (y % 100 != 0 || y % 400 == 0) { 366int } else { 365int },
        days_before_month(y, 12) == year_len(y),
{
    lemma_year_len_total(y);
}

fn year_length(y: i64) -> (n: i64)
    ensures
        n == year_len(y as int),
{
    if is_leap(y) { 366 } else { 365 }
}

fn month_length(y: i64, m: usize) -> (n: i64)
    requires
        m < 12,
    ensures
        n == month_len(y as int, m as int),
{
    let month_days: [i64; 12] = [
        31,
        28 + if is_leap(y) { 1 } else { 0 },
        31,
        30,
        31,
        30,
        31,
        31,
        30,
        31,
        30,
        31,
    ];
    month_days[m]
}

// ---------------------------------------------------------------------------
// Formatting a Unix timestamp
// ---------------------------------------------------------------------------

/// `YYYY-MM-DDTHH:MM:SSZ` from its six fields, each field as `{:0w$}`
/// renders it (four places for the year, two for the others).
pub open spec fn stamp_text(y: int, mo: int, d: int, h: int, mi: int, s: int) -> Seq<char> {
    padded(y, 4) + seq!['-'] + padded(mo, 2) + seq!['-'] + padded(d, 2) + seq!['T'] + padded(h, 2)
        + seq![':'] + padded(mi, 2) + seq![':'] + padded(s, 2) + seq!['Z']
}

/// The text that `format_unix_time` gives for `ts`.
pub open spec fn unix_time_text(ts: int) -> Seq<char> {
    let days = tdiv(ts, 86400);
    let rem = trem(ts, 86400);
    let (y, yd) = civil_year(1970, days);
    let (m, md) = civil_month(y, 0, yd);
    stamp_text(y, m + 1, md + 1, tdiv(rem, 3600), tdiv(trem(rem, 3600), 60), trem(rem, 60))
}

/// The year that day `days` after 1970-01-01 falls in, and the day within it.
fn year_of_days(days: i64) -> (r: (i64, i64))
    requires
        -106751991167301 <= days <= 106751991167300,
    ensures
        (r.0 as int, r.1 as int) == civil_year(1970, days as int),
        r.1 <= days,
{
    let mut y: i64 = 1970;
    let mut remaining_days = days;
    while remaining_days >= year_length(y)
        invariant
            -106751991167301 <= days <= 106751991167300,
            1970 <= y,
            remaining_days <= days,
            (y - 1970) * 365 <= days - remaining_days,
            civil_year(y as int, remaining_days as int) == civil_year(1970, days as int),
        decreases remaining_days,
    {
        remaining_days = remaining_days - year_length(y);
        y = y + 1;
    }
    (y, remaining_days)
}

/// The month (January is 0) that day `yd` of year `y` falls in, and the day
/// within it.
fn month_of_days(y: i64, yd: i64) -> (r: (usize, i64))
    ensures
        (r.0 as int, r.1 as int) == civil_month(y as int, 0, yd as int),
        r.0 <= 12,
        r.1 <= yd,
{
    let mut remaining_days = yd;
    let mut m: usize = 0;
    while m < 12 && remaining_days >= month_length(y, m)
        invariant
            m <= 12,
            remaining_days <= yd,
            civil_month(y as int, m as int, remaining_days as int) == civil_month(
                y as int,
                0,
                yd as int,
            ),
        decreases 12 - m,
    {
        remaining_days = remaining_days - month_length(y, m);
        m = m + 1;
    }
    (m, remaining_days)
}

/// Renders the six fields as `stamp_text` says.
fn stamp(y: i64, mo: i64, d: i64, h: i64, mi: i64, s: i64) -> (r: String)
    ensures
        r@ == stamp_text(y as int, mo as int, d as int, h as int, mi as int, s as int),
{
    let mut out: Vec<char> = Vec::new();
    push_padded(&mut out, y, 4);
    out.push('-');
    push_padded(&mut out, mo, 2);
    out.push('-');
    push_padded(&mut out, d, 2);
    out.push('T');
    push_padded(&mut out, h, 2);
    out.push(':');
    push_padded(&mut out, mi, 2);
    out.push(':');
    push_padded(&mut out, s, 2);
    out.push('Z');
    assert(out@ =~= stamp_text(y as int, mo as int, d as int, h as int, mi as int, s as int));
    string_of(&out)
}

/// Formats a Unix timestamp as `YYYY-MM-DDTHH:MM:SSZ`.
pub fn format_unix_time(ts: i64) -> (s: String)
    ensures
        s@ == unix_time_text(ts as int),
{
    let days = ts / 86400;
    let rem = ts % 86400;
    let hour = rem / 3600;
    let minute = (rem % 3600) / 60;
    let second = rem % 60;
    let (y, yd) = year_of_days(days);
    let (m, md) = month_of_days(y, yd);
    stamp(y, (m + 1) as i64, md + 1, hour, minute, second)
}

// ---------------------------------------------------------------------------
// Parsing an ISO 8601 date-time
// ---------------------------------------------------------------------------

/// The pieces that parse as integers, in order (`filter_map` of `parse`).
pub open spec fn parsed_ints(parts: Seq<Seq<char>>) -> Seq<i64>
    decreases parts.len(),
{
    if parts.len() == 0 {
        seq![]
    } else {
        let r = parsed_ints(parts.drop_last());
        match parse_int(parts.last()) {
            Some(v) => r.push(v),
            None => r,
        }
    }
}

/// The fields (year, month, day, hour, minute, second) that `parse_iso8601`
/// reads from `s`, or `None` where it gives up: trailing `Z`s are dropped,
/// the rest must hold exactly one `T`; of the `-`-separated date pieces,
/// those that parse must be exactly three; the time must have at least two
/// `:`-separated pieces, the first two parsing; the third piece, where
/// there is one and it parses, is the second, else the second is 0.
pub open spec fn iso8601_fields(s: Seq<char>) -> Option<(i64, i64, i64, i64, i64, i64)> {
    let t = strip_trailing(s, 'Z');
    let parts = split_on(t, 'T');
    if parts.len() != 2 {
        None
    } else {
        let date = parsed_ints(split_on(parts[0], '-'));
        let time = split_on(parts[1], ':');
        if date.len() != 3 || time.len() < 2 {
            None
        } else {
            match (parse_int(time[0]), parse_int(time[1])) {
                (Some(h), Some(mi)) => {
                    let sec = if time.len() > 2 {
                        match parse_int(time[2]) {
                            Some(v) => v,
                            None => 0,
                        }
                    } else {
                        0
                    };
                    Some((date[0], date[1], date[2], h, mi, sec))
                },
                _ => None,
            }
        }
    }
}

/// Days from 1970-01-01 to the given date (month and day counted from 1);
/// years before 1970 count no days.
pub open spec fn epoch_days(y: int, mo: int, d: int) -> int {
    days_before_year(y) + days_before_month(y, mo - 1) + (d - 1)
}

/// Seconds from 1970-01-01T00:00:00 to the given date and time.
pub open spec fn epoch_seconds(y: int, mo: int, d: int, h: int, mi: int, s: int) -> int {
    epoch_days(y, mo, d) * 86400 + h * 3600 + mi * 60 + s
}

/// Whether `x` fits in an `i64`.
pub open spec fn fits_i64(x: int) -> bool {
    i64::MIN <= x <= i64::MAX
}

/// Whether the computation on these fields stays within `i64` at every
/// step and the month indexes the month table (1 to 13).
pub open spec fn fields_computable(f: (i64, i64, i64, i64, i64, i64)) -> bool {
    let (y, mo, d, h, mi, s) = f;
    let days = epoch_days(y as int, mo as int, d as int);
    &&& 1 <= mo <= 13
    &&& fits_i64(days_before_year(y as int) + days_before_month(y as int, mo - 1))
    &&& fits_i64(d - 1)
    &&& fits_i64(days)
    &&& fits_i64(days * 86400)
    &&& fits_i64(h * 3600)
    &&& fits_i64(mi * 60)
    &&& fits_i64(days * 86400 + h * 3600)
    &&& fits_i64(days * 86400 + h * 3600 + mi * 60)
    &&& fits_i64(days * 86400 + h * 3600 + mi * 60 + s)
}

/// The inputs on which `parse_iso8601` returns: those it rejects, and those
/// whose fields it can compute with.
pub open spec fn iso8601_in_domain(s: Seq<char>) -> bool {
    match iso8601_fields(s) {
        Some(f) => fields_computable(f),
        None => true,
    }
}

/// What `parse_iso8601` gives for `s`.
pub open spec fn iso8601_value(s: Seq<char>) -> Option<i64> {
    match iso8601_fields(s) {
        Some((y, mo, d, h, mi, sec)) => Some(
            epoch_seconds(y as int, mo as int, d as int, h as int, mi as int, sec as int) as i64,
        ),
        None => None,
    }
}

proof fn lemma_days_before_year_mono(a: int, b: int)
    requires
        a <= b,
    ensures
        0 <= days_before_year(a) <= days_before_year(b),
    decreases b - a,
{
    if a < b {
        lemma_days_before_year_mono(a, b - 1);
    } else {
        lemma_days_before_year_nonneg(a);
    }
}

proof fn lemma_days_before_year_nonneg(a: int)
    ensures
        0 <= days_before_year(a),
    decreases a - 1970,
{
    if a > 1970 {
        lemma_days_before_year_nonneg(a - 1);
    }
}

proof fn lemma_days_before_month_mono(y: int, a: int, b: int)
    requires
        0 <= a <= b,
    ensures
        0 <= days_before_month(y, a) <= days_before_month(y, b),
    decreases b - a,
{
    if a < b {
        lemma_days_before_month_mono(y, a, b - 1);
    } else {
        lemma_days_before_month_nonneg(y, a);
    }
}

proof fn lemma_days_before_month_nonneg(y: int, a: int)
    ensures
        0 <= days_before_month(y, a),
    decreases a,
{
    if a > 0 {
        lemma_days_before_month_nonneg(y, a - 1);
    }
}

/// The integers among `parts`, in order.
fn parse_all(parts: &Vec<Vec<char>>) -> (r: Vec<i64>)
    ensures
        r@ == parsed_ints(views(parts@)),
{
    let mut r: Vec<i64> = Vec::new();
    for i in 0..parts.len()
        invariant
            r@ == parsed_ints(views(parts@).take(i as int)),
    {
        let ghost pre = views(parts@).take(i as int);
        let ghost next = views(parts@).take(i + 1);
        assert(next.drop_last() == pre);
        assert(next.last() == parts@[i as int]@);
        match parse_int_chars(&parts[i]) {
            Some(v) => r.push(v),
            None => {},
        }
    }
    assert(views(parts@).take(parts.len() as int) == views(parts@));
    r
}

/// Days from 1970-01-01 to the start of `year`, counting none before 1970.
fn days_to_year(year: i64, bound: Ghost<int>) -> (days: i64)
    requires
        days_before_year(year as int) <= bound@ <= i64::MAX,
    ensures
        days == days_before_year(year as int),
{
    let mut days: i64 = 0;
    let mut y: i64 = 1970;
    while y < year
        invariant
            1970 <= y,
            y <= year || year < 1970,
            year < 1970 ==> y == 1970,
            days == days_before_year(y as int),
            days_before_year(year as int) <= bound@ <= i64::MAX,
        decreases year - y,
    {
        proof {
            lemma_days_before_year_mono(y + 1, year as int);
        }
        days = days + year_length(y);
        y = y + 1;
    }
    days
}

/// Adds the days of the first `months` months of `year` to `days`.
fn add_month_days(days: i64, year: i64, months: usize) -> (r: i64)
    requires
        months <= 12,
        0 <= days,
        fits_i64(days + days_before_month(year as int, months as int)),
    ensures
        r == days + days_before_month(year as int, months as int),
{
    let mut r = days;
    let mut k: usize = 0;
    while k < months
        invariant
            k <= months <= 12,
            0 <= days,
            r == days + days_before_month(year as int, k as int),
            fits_i64(days + days_before_month(year as int, months as int)),
        decreases months - k,
    {
        proof {
            lemma_days_before_month_mono(year as int, k + 1, months as int);
        }
        r = r + month_length(year, k);
        k = k + 1;
    }
    r
}

/// Seconds since 1970-01-01T00:00:00 for the given fields.
fn epoch_from_fields(year: i64, month: i64, day: i64, hour: i64, minute: i64, second: i64) -> (r:
    i64)
    requires
        fields_computable((year, month, day, hour, minute, second)),
    ensures
        r == epoch_seconds(
            year as int,
            month as int,
            day as int,
            hour as int,
            minute as int,
            second as int,
        ),
{
    proof {
        lemma_days_before_month_nonneg(year as int, month - 1);
        lemma_days_before_year_nonneg(year as int);
    }
    let mut days = days_to_year(
        year,
        Ghost(days_before_year(year as int) + days_before_month(year as int, month - 1)),
    );
    days = add_month_days(days, year, (month - 1) as usize);
    days = days + (day - 1);
    days * 86400 + hour * 3600 + minute * 60 + second
}

/// Parses an ISO 8601 UTC date-time such as `2024-01-15T10:30:00Z` to
/// seconds since the Unix epoch, with no time-zone handling.
pub fn parse_iso8601(s: &str) -> (r: Option<i64>)
    requires
        iso8601_in_domain(s@),
    ensures
        r == iso8601_value(s@),
{
    match iso8601_read_fields(s) {
        Some((year, month, day, hour, minute, second)) => Some(
            epoch_from_fields(year, month, day, hour, minute, second),
        ),
        None => None,
    }
}

// ---------------------------------------------------------------------------
// Formatting then parsing gives the timestamp back
// ---------------------------------------------------------------------------

proof fn lemma_year_len_total(y: int)
    ensures
        days_before_month(y, 12) == year_len(y),
{
    reveal_with_fuel(days_before_month, 13);
}

/// Walking years from `y0` accounts for every day.
proof fn lemma_civil_year(y0: int, d: int)
    requires
        y0 >= 1970,
        d >= 0,
    ensures
        civil_year(y0, d).0 >= y0,
        0 <= civil_year(y0, d).1 < year_len(civil_year(y0, d).0),
        days_before_year(civil_year(y0, d).0) + civil_year(y0, d).1 == days_before_year(y0) + d,
    decreases d,
{
    if d >= year_len(y0) {
        lemma_civil_year(y0 + 1, d - year_len(y0));
    }
}

/// Walking months from `m0` within a year accounts for every day.
proof fn lemma_civil_month(y: int, m0: int, d: int)
    requires
        0 <= m0 <= 12,
        0 <= d,
        d + days_before_month(y, m0) < year_len(y),
    ensures
        0 <= civil_month(y, m0, d).0 < 12,
        0 <= civil_month(y, m0, d).1 < month_len(y, civil_month(y, m0, d).0),
        days_before_month(y, civil_month(y, m0, d).0) + civil_month(y, m0, d).1
            == days_before_month(y, m0) + d,
    decreases 12 - m0,
{
    lemma_year_len_total(y);
    if m0 < 12 && d >= month_len(y, m0) {
        lemma_civil_month(y, m0 + 1, d - month_len(y, m0));
    }
}

/// Splitting a stamp's date at `-` and its time at `:` gives its fields.
proof fn lemma_split_three(a: Seq<char>, b: Seq<char>, c: Seq<char>, sep: char)
    requires
        !a.contains(sep),
        !b.contains(sep),
        !c.contains(sep),
    ensures
        split_on(a + seq![sep] + b + seq![sep] + c, sep) == seq![a, b, c],
{
    lemma_split_concat(a + seq![sep] + b, c, sep);
    lemma_split_concat(a, b, sep);
    lemma_split_none(a, sep);
    lemma_split_none(b, sep);
    lemma_split_none(c, sep);
    assert(split_on(a + seq![sep] + b + seq![sep] + c, sep) =~= seq![a, b, c]);
}

proof fn lemma_no_sep3(a: Seq<char>, b: Seq<char>, c: Seq<char>, s1: char, s2: char, t: char)
    requires
        !a.contains(t),
        !b.contains(t),
        !c.contains(t),
        s1 != t,
        s2 != t,
    ensures
        !(a + seq![s1] + b + seq![s2] + c).contains(t),
{
    let x = a + seq![s1] + b + seq![s2] + c;
    if x.contains(t) {
        let i = choose|i: int| 0 <= i < x.len() && x[i] == t;
        if i < a.len() {
            assert(a[i] == t);
        } else if i == a.len() {
        } else if i < a.len() + 1 + b.len() {
            assert(b[i - a.len() - 1] == t);
        } else if i == a.len() + 1 + b.len() {
        } else {
            assert(c[i - a.len() - 2 - b.len()] == t);
        }
    }
}

/// The stamp of six non-negative fields parses back to those fields.
proof fn lemma_stamp_fields(y: int, mo: int, d: int, h: int, mi: int, s: int)
    requires
        0 <= y <= i64::MAX,
        0 <= mo <= i64::MAX,
        0 <= d <= i64::MAX,
        0 <= h <= i64::MAX,
        0 <= mi <= i64::MAX,
        0 <= s <= i64::MAX,
    ensures
        iso8601_fields(stamp_text(y, mo, d, h, mi, s)) == Some(
            (y as i64, mo as i64, d as i64, h as i64, mi as i64, s as i64),
        ),
{
    let py = padded(y, 4);
    let pmo = padded(mo, 2);
    let pd = padded(d, 2);
    let ph = padded(h, 2);
    let pmi = padded(mi, 2);
    let ps = padded(s, 2);
    lemma_padded_digits(y, 4);
    lemma_padded_digits(mo, 2);
    lemma_padded_digits(d, 2);
    lemma_padded_digits(h, 2);
    lemma_padded_digits(mi, 2);
    lemma_padded_digits(s, 2);
    assert(!is_digit('-') && !is_digit(':') && !is_digit('T') && !is_digit('Z'));
    let date = py + seq!['-'] + pmo + seq!['-'] + pd;
    let time = ph + seq![':'] + pmi + seq![':'] + ps;
    let text = stamp_text(y, mo, d, h, mi, s);
    assert(text =~= date + seq!['T'] + time + seq!['Z']);
    // Dropping the trailing `Z`.
    let core = date + seq!['T'] + time;
    assert(text.drop_last() =~= core);
    assert(ps[ps.len() - 1] != 'Z') by {
        assert(is_digit(ps[ps.len() - 1]));
    }
    assert(core.last() == ps.last()) by {
        assert(core =~= (date + seq!['T'] + ph + seq![':'] + pmi + seq![':']) + ps);
    }
    assert(strip_trailing(core, 'Z') == core);
    assert(strip_trailing(text, 'Z') == core);
    // Splitting at `T`.
    lemma_no_sep3(py, pmo, pd, '-', '-', 'T');
    lemma_no_sep3(ph, pmi, ps, ':', ':', 'T');
    lemma_split_concat(date, time, 'T');
    lemma_split_none(date, 'T');
    lemma_split_none(time, 'T');
    assert(split_on(core, 'T') =~= seq![date, time]);
    // The date and time pieces.
    lemma_split_three(py, pmo, pd, '-');
    lemma_split_three(ph, pmi, ps, ':');
    lemma_parse_padded(y, 4);
    lemma_parse_padded(mo, 2);
    lemma_parse_padded(d, 2);
    lemma_parse_padded(h, 2);
    lemma_parse_padded(mi, 2);
    lemma_parse_padded(s, 2);
    let pieces = seq![py, pmo, pd];
    assert(pieces.drop_last() =~= seq![py, pmo]);
    assert(pieces.drop_last().drop_last() =~= seq![py]);
    assert(pieces.drop_last().drop_last().drop_last() =~= Seq::<Seq<char>>::empty());
    assert(parsed_ints(pieces.drop_last().drop_last().drop_last()) =~= Seq::<i64>::empty());
    assert(parsed_ints(pieces.drop_last().drop_last()) =~= seq![y as i64]);
    assert(parsed_ints(pieces.drop_last()) =~= seq![y as i64, mo as i64]);
    assert(parsed_ints(pieces) =~= seq![y as i64, mo as i64, d as i64]);
}

/// Formatting a non-negative Unix timestamp and parsing the text back gives
/// the same timestamp; the text lies in the parser's domain.
pub proof fn law_format_then_parse(ts: int)
    requires
        0 <= ts <= i64::MAX,
    ensures
        iso8601_in_domain(unix_time_text(ts)),
        iso8601_value(unix_time_text(ts)) == Some(ts as i64),
{
    let days = tdiv(ts, 86400);
    let rem = trem(ts, 86400);
    let (y, yd) = civil_year(1970, days);
    let (m, md) = civil_month(y, 0, yd);
    let h = tdiv(rem, 3600);
    let mi = tdiv(trem(rem, 3600), 60);
    let s = trem(rem, 60);
    assert(days == ts / 86400 && rem == ts % 86400);
    assert(0 <= rem < 86400);
    assert(h * 3600 + mi * 60 + s == rem);
    lemma_civil_year(1970, days);
    lemma_days_before_year_mono(1970, y);
    lemma_civil_month(y, 0, yd);
    lemma_days_before_month_nonneg(y, m);
    assert(days_before_year(y) + days_before_month(y, m) + md == days);
    assert(y <= i64::MAX) by {
        // each year after 1970 takes at least one day
        lemma_days_before_year_lower(y);
    }
    lemma_stamp_fields(y, m + 1, md + 1, h, mi, s);
    assert(epoch_days(y, m + 1, md + 1) == days);
    assert(days * 86400 + rem == ts);
}

/// `padded(n, w)` of a number with at most `w` digits has `w` characters.
proof fn lemma_padded_len(n: int, w: nat)
    requires
        0 <= n < pow10(w),
        w >= 1,
    ensures
        padded(n, w as int).len() == w,
{
    lemma_decimal_len(n as nat, w);
    assert(abs(n) == n as nat);
    assert(padded(n, w as int) =~= zeros(w - decimal(n as nat).len()) + decimal(n as nat));
}

/// The text of a non-negative Unix timestamp is `YYYY-MM-DDTHH:MM:SSZ` of
/// a calendar date (a month from 1 to 12, a day within that month) and a
/// time of day, which together lie `ts` seconds after 1970-01-01T00:00:00Z;
/// for the years up to 9999 it has 20 characters.
pub proof fn law_formatted_fields(ts: int) -> (f: (int, int, int, int, int, int))
    requires
        0 <= ts <= i64::MAX,
    ensures
        unix_time_text(ts) == stamp_text(f.0, f.1, f.2, f.3, f.4, f.5),
        1970 <= f.0,
        1 <= f.1 <= 12,
        1 <= f.2 <= month_len(f.0, f.1 - 1),
        0 <= f.3 < 24,
        0 <= f.4 < 60,
        0 <= f.5 < 60,
        epoch_seconds(f.0, f.1, f.2, f.3, f.4, f.5) == ts,
        f.0 <= 9999 ==> unix_time_text(ts).len() == 20,
{
    let days = tdiv(ts, 86400);
    let rem = trem(ts, 86400);
    let (y, yd) = civil_year(1970, days);
    let (m, md) = civil_month(y, 0, yd);
    let h = tdiv(rem, 3600);
    let mi = tdiv(trem(rem, 3600), 60);
    let s = trem(rem, 60);
    assert(days == ts / 86400 && rem == ts % 86400);
    assert(0 <= rem < 86400);
    assert(h * 3600 + mi * 60 + s == rem);
    lemma_civil_year(1970, days);
    lemma_civil_month(y, 0, yd);
    assert(days_before_year(y) + days_before_month(y, m) + md == days);
    assert(epoch_days(y, m + 1, md + 1) == days);
    assert(days * 86400 + rem == ts);
    if y <= 9999 {
        reveal_with_fuel(pow10, 5);
        lemma_padded_len(y, 4);
        lemma_padded_len(m + 1, 2);
        lemma_padded_len(md + 1, 2);
        lemma_padded_len(h, 2);
        lemma_padded_len(mi, 2);
        lemma_padded_len(s, 2);
    }
    (y, m + 1, md + 1, h, mi, s)
}

/// Each year from 1970 holds at least 365 days.
proof fn lemma_days_before_year_lower(y: int)
    requires
        y >= 1970,
    ensures
        days_before_year(y) >= 365 * (y - 1970),
    decreases y - 1970,
{
    if y > 1970 {
        lemma_days_before_year_lower(y - 1);
    }
}

// ---------------------------------------------------------------------------
// Telling in advance whether parsing stays in range
// ---------------------------------------------------------------------------

/// The leap years from year 1 up to and including year `n` (for `n >= 0`).
pub open spec fn leaps_through(n: int) -> int {
    n / 4 - n / 100 + n / 400
}

proof fn lemma_leap_step(y: int)
    requires
        y >= 1,
    ensures
        leaps_through(y) - leaps_through(y - 1) == (if leap_year(y) { 1int } else { 0int }),
{
    assert(y / 4 - (y - 1) / 4 == (if y % 4 == 0 { 1int } else { 0int }));
    assert(y / 100 - (y - 1) / 100 == (if y % 100 == 0 { 1int } else { 0int }));
    assert(y / 400 - (y - 1) / 400 == (if y % 400 == 0 { 1int } else { 0int }));
    if y % 400 == 0 {
        assert(y % 100 == 0 && y % 4 == 0);
    } else if y % 100 == 0 {
        assert(y % 4 == 0);
    }
}

/// The days before year `y` in closed form.
proof fn lemma_days_before_year_closed(y: int)
    requires
        y >= 1970,
    ensures
        days_before_year(y) == 365 * (y - 1970) + leaps_through(y - 1) - leaps_through(1969),
    decreases y - 1970,
{
    if y > 1970 {
        lemma_days_before_year_closed(y - 1);
        lemma_leap_step(y - 1);
    }
}

/// `days_before_year`, computed without walking the years.
fn days_before_year_wide(y: i64) -> (r: i128)
    ensures
        r == days_before_year(y as int),
{
    if y <= 1970 {
        return 0;
    }
    proof {
        lemma_days_before_year_closed(y as int);
    }
    let n: i128 = (y as i128) - 1;
    365 * ((y as i128) - 1970) + (n / 4 - n / 100 + n / 400) - (1969 / 4 - 1969 / 100 + 1969 / 400)
}

/// `days_before_month`, for a month count up to 12.
fn days_before_month_wide(y: i64, m: usize) -> (r: i128)
    requires
        m <= 12,
    ensures
        r == days_before_month(y as int, m as int),
        0 <= r <= 372,
{
    let mut r: i128 = 0;
    let mut k: usize = 0;
    while k < m
        invariant
            k <= m <= 12,
            r == days_before_month(y as int, k as int),
            0 <= r <= 31 * k,
        decreases m - k,
    {
        r = r + month_length(y, k) as i128;
        k = k + 1;
    }
    r
}

/// Whether `x` fits in an `i64`.
fn fits(x: i128) -> (b: bool)
    ensures
        b == fits_i64(x as int),
{
    -0x8000_0000_0000_0000i128 <= x && x <= 0x7fff_ffff_ffff_ffffi128
}

/// Whether the computation on these fields stays in range.
fn fields_supported(y: i64, mo: i64, d: i64, h: i64, mi: i64, s: i64) -> (b: bool)
    ensures
        b == fields_computable((y, mo, d, h, mi, s)),
{
    if mo < 1 || mo > 13 {
        return false;
    }
    let dby = days_before_year_wide(y);
    let dbm = days_before_month_wide(y, (mo - 1) as usize);
    proof {
        lemma_days_before_year_closed_bound(y as int);
    }
    let base = dby + dbm;
    let dm1 = (d as i128) - 1;
    let days = base + dm1;
    if !fits(days) {
        return false;
    }
    let ds = days * 86400;
    let hs = (h as i128) * 3600;
    let ms = (mi as i128) * 60;
    fits(base) && fits(dm1) && fits(ds) && fits(hs) && fits(ms) && fits(ds + hs) && fits(ds + hs + ms)
        && fits(ds + hs + ms + s as i128)
}

proof fn lemma_days_before_year_closed_bound(y: int)
    requires
        y <= i64::MAX,
    ensures
        0 <= days_before_year(y) <= 366 * 0x8000_0000_0000_0000,
{
    lemma_days_before_year_nonneg(y);
    if y >= 1970 {
        lemma_days_before_year_upper(y);
    }
}

proof fn lemma_days_before_year_upper(y: int)
    requires
        y >= 1970,
    ensures
        days_before_year(y) <= 366 * (y - 1970),
    decreases y - 1970,
{
    if y > 1970 {
        lemma_days_before_year_upper(y - 1);
    }
}

/// The fields `parse_iso8601` reads from `s`, if any.
fn iso8601_read_fields(s: &str) -> (r: Option<(i64, i64, i64, i64, i64, i64)>)
    ensures
        r == iso8601_fields(s@),
{
    let chars = chars_of(s);
    let t = strip_trailing_chars(&chars, 'Z');
    let parts = split_chars(&t, 'T');
    if parts.len() != 2 {
        return None;
    }
    let date_pieces = split_chars(&parts[0], '-');
    let date_parts = parse_all(&date_pieces);
    let time_parts = split_chars(&parts[1], ':');
    if date_parts.len() != 3 || time_parts.len() < 2 {
        return None;
    }
    let hour = match parse_int_chars(&time_parts[0]) {
        Some(v) => v,
        None => return None,
    };
    let minute = match parse_int_chars(&time_parts[1]) {
        Some(v) => v,
        None => return None,
    };
    let second = if time_parts.len() > 2 {
        match parse_int_chars(&time_parts[2]) {
            Some(v) => v,
            None => 0,
        }
    } else {
        0
    };
    Some((date_parts[0], date_parts[1], date_parts[2], hour, minute, second))
}

/// Whether `parse_iso8601` accepts `s` as an argument, i.e. returns on it
/// rather than overflowing or indexing out of the month table.
pub fn iso8601_supported(s: &str) -> (b: bool)
    ensures
        b == iso8601_in_domain(s@),
{
    match iso8601_read_fields(s) {
        Some((y, mo, d, h, mi, sec)) => fields_supported(y, mo, d, h, mi, sec),
        None => true,
    }
}

} // verus!
