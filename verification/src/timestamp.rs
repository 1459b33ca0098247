//! Points in time, held as seconds since the Unix epoch, written the way a
//! UTC date and time displays: `YYYY-MM-DD HH:MM:SS UTC`.
use vstd::prelude::*;
use crate::num::{decimal, decimal_chars_u64};

verus! {

/// The days of a 400-year era of the proleptic Gregorian calendar.
pub open spec fn era_days() -> int {
    146097
}

/// The civil date (year, month, day) of the day `z` counted from
/// 1970-01-01, by the proleptic Gregorian calendar: days are counted from
/// 0000-03-01 in eras of 400 years, years run from March, and January and
/// February belong to the next year.
pub open spec fn civil_from_days(z: int) -> (int, int, int) {
    let zz = z + 719468;
    let era = zz / era_days();
    let doe = zz % era_days();
    let yoe = (doe - doe / 1460 + doe / 36524 - doe / 146096) / 365;
    let y = yoe + era * 400;
    let doy = doe - (365 * yoe + yoe / 4 - yoe / 100);
    let mp = (5 * doy + 2) / 153;
    let d = doy - (153 * mp + 2) / 5 + 1;
    let m = if mp < 10 {
        mp + 3
    } else {
        mp - 9
    };
    (if m <= 2 {
        y + 1
    } else {
        y
    }, m, d)
}

/// The decimal digits of `n`, with zeros in front up to `width` digits.
pub open spec fn padded(n: nat, width: nat) -> Seq<char> {
    let d = decimal(n);
    if d.len() >= width {
        d
    } else {
        Seq::new((width - d.len()) as nat, |i: int| '0') + d
    }
}

/// A year as a date displays it: four digits for the years 0 to 9999, and
/// otherwise a sign and at least four digits.
pub open spec fn year_text(y: int) -> Seq<char> {
    if 0 <= y <= 9999 {
        padded(y as nat, 4)
    } else if y < 0 {
        seq!['-'] + padded((-y) as nat, 4)
    } else {
        seq!['+'] + padded(y as nat, 4)
    }
}

/// The time `secs` seconds after 1970-01-01 00:00:00 UTC, written
/// `YYYY-MM-DD HH:MM:SS UTC`.
pub open spec fn timestamp_text(secs: int) -> Seq<char> {
    let days = secs / 86400;
    let sod = secs % 86400;
    let (y, m, d) = civil_from_days(days);
    year_text(y) + seq!['-'] + padded(m as nat, 2) + seq!['-'] + padded(d as nat, 2) + seq![' ']
        + padded((sod / 3600) as nat, 2) + seq![':'] + padded((sod % 3600 / 60) as nat, 2) + seq![':']
        + padded((sod % 60) as nat, 2) + " UTC"@
}

/// Adding whole multiples of `b` moves the quotient by as many and keeps
/// the remainder.
proof fn lemma_shift(a: int, k: int, b: int)
    requires
        b > 0,
    ensures
        (a + k * b) / b == a / b + k,
        (a + k * b) % b == a % b,
{
    vstd::arithmetic::div_mod::lemma_fundamental_div_mod(a, b);
    let q = a / b;
    let r = a % b;
    assert(a + k * b == (q + k) * b + r) by (nonlinear_arith)
        requires
            a == b * q + r,
    ;
    vstd::arithmetic::div_mod::lemma_fundamental_div_mod_converse(a + k * b, b, q + k, r);
}

/// The digits of `n` with zeros in front up to `width` digits.
fn padded_chars(n: u64, width: usize, out: &mut Vec<char>)
    ensures
        final(out)@ == old(out)@ + padded(n as nat, width as nat),
{
    let d = decimal_chars_u64(n);
    let ghost start = out@;
    if d.len() < width {
        let k = width - d.len();
        let mut i: usize = 0;
        while i < k
            invariant
                i <= k,
                out@ == start + Seq::new(i as nat, |j: int| '0'),
            decreases k - i,
        {
            out.push('0');
            i = i + 1;
            assert(out@ =~= start + Seq::new(i as nat, |j: int| '0'));
        }
    }
    let ghost mid = out@;
    let mut j: usize = 0;
    while j < d.len()
        invariant
            j <= d@.len(),
            out@ == mid + d@.take(j as int),
        decreases d@.len() - j,
    {
        out.push(d[j]);
        j = j + 1;
        assert(out@ =~= mid + d@.take(j as int));
    }
    assert(d@.take(d@.len() as int) =~= d@);
    assert(out@ =~= start + padded(n as nat, width as nat));
}

/// The day of `secs` counted from 1970-01-01, and the second of that day.
fn split_seconds(secs: i64) -> (r: (i64, i64))
    ensures
        r.0 == secs as int / 86400,
        r.1 == secs as int % 86400,
        -200_000_000_000_000 <= r.0 <= 200_000_000_000_000,
        0 <= r.1 < 86400,
{
    let off_days: i128 = 146097_000_000_000;
    let t: i128 = secs as i128 + off_days * 86400;
    let days_s: i128 = t / 86400;
    let sod: i128 = t % 86400;
    proof {
        lemma_shift(secs as int, off_days as int, 86400);
    }
    ((days_s - off_days) as i64, sod as i64)
}

/// The year, month and day of the position `doe` within its era.
fn civil_in_era(doe: i64) -> (r: (i64, i64, i64, bool))
    requires
        0 <= doe < 146097,
    ensures
        ({
            let yoe = (doe - doe / 1460 + doe / 36524 - doe / 146096) / 365;
            let doy = doe - (365 * yoe + yoe / 4 - yoe / 100);
            let mp = (5 * doy + 2) / 153;
            &&& r.0 == yoe
            &&& r.1 == (if mp < 10 { mp + 3 } else { mp - 9 })
            &&& r.2 == doy - (153 * mp + 2) / 5 + 1
            &&& r.3 == (r.1 <= 2)
        }),
        0 <= r.0 < 400,
        1 <= r.1 <= 12,
        1 <= r.2 <= 31,
{
    let yoe: i64 = (doe - doe / 1460 + doe / 36524 - doe / 146096) / 365;
    assert(0 <= yoe < 400);
    let doy: i64 = doe - (365 * yoe + yoe / 4 - yoe / 100);
    assert(0 <= doy <= 365);
    let mp: i64 = (5 * doy + 2) / 153;
    let d: i64 = doy - (153 * mp + 2) / 5 + 1;
    let m: i64 = if mp < 10 {
        mp + 3
    } else {
        mp - 9
    };
    (yoe, m, d, m <= 2)
}

/// The civil date of the day `days` counted from 1970-01-01.
fn civil_date(days: i64) -> (r: (i64, i64, i64))
    requires
        -200_000_000_000_000 <= days <= 200_000_000_000_000,
    ensures
        (r.0 as int, r.1 as int, r.2 as int) == civil_from_days(days as int),
        1 <= r.1 <= 12,
        1 <= r.2 <= 31,
{
    let n_eras: i64 = 10_000_000_000;
    let z_s: i64 = days + 719468 + n_eras * 146097;
    let era_s: i64 = z_s / 146097;
    let doe: i64 = z_s % 146097;
    proof {
        lemma_shift(days as int + 719468, n_eras as int, 146097);
    }
    let (yoe, m, d, early) = civil_in_era(doe);
    let y: i64 = yoe + (era_s - n_eras) * 400;
    let year = if early {
        y + 1
    } else {
        y
    };
    (year, m, d)
}

/// `out` followed by the year `y` as a date displays it.
fn push_year(y: i64, out: &mut Vec<char>)
    requires
        -1_000_000_000_000 <= y <= 1_000_000_000_000,
    ensures
        final(out)@ == old(out)@ + year_text(y as int),
{
    let ghost start = out@;
    if 0 <= y && y <= 9999 {
        padded_chars(y as u64, 4, out);
    } else if y < 0 {
        out.push('-');
        padded_chars((-y) as u64, 4, out);
        assert(out@ =~= start + year_text(y as int));
    } else {
        out.push('+');
        padded_chars(y as u64, 4, out);
        assert(out@ =~= start + year_text(y as int));
    }
}

/// The time `secs` seconds after 1970-01-01 00:00:00 UTC, written
/// `YYYY-MM-DD HH:MM:SS UTC`.
pub fn format_timestamp(secs: i64) -> (r: String)
    ensures
        r@ == timestamp_text(secs as int),
{
    let (days, sod) = split_seconds(secs);
    let (year, m, d) = civil_date(days);
    assert(-1_000_000_000_000 <= year <= 1_000_000_000_000) by {
        assert(civil_from_days(days as int).0 == year);
    }
    let mut out: Vec<char> = Vec::new();
    push_year(year, &mut out);
    out.push('-');
    padded_chars(m as u64, 2, &mut out);
    out.push('-');
    padded_chars(d as u64, 2, &mut out);
    out.push(' ');
    padded_chars((sod / 3600) as u64, 2, &mut out);
    out.push(':');
    padded_chars((sod % 3600 / 60) as u64, 2, &mut out);
    out.push(':');
    padded_chars((sod % 60) as u64, 2, &mut out);
    out.push(' ');
    out.push('U');
    out.push('T');
    out.push('C');
    proof {
        reveal_strlit(" UTC");
    }
    let ghost want = timestamp_text(secs as int);
    assert(out@ =~= want);
    crate::text::string_of(out.as_slice())
}

} // verus!
