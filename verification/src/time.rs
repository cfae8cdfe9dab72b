//! RFC 3339 UTC timestamps from Unix seconds, without a calendar crate.
//!
//! `format_rfc3339` renders `YYYY-MM-DDTHH:MM:SSZ`; `days_to_ymd` converts
//! a day count since 1970-01-01 to a calendar date.  The format is
//! monotone: later instants render as lexicographically larger strings
//! (through the year 9999), which is what keeps `updated_at` comparisons
//! meaningful.

use vstd::prelude::*;
use crate::order::{lex_le, lex_lt, lemma_lex_concat};
use crate::strbytes::{all_ascii, ascii_chars_of, ascii_to_string};

verus! {

/// Gregorian leap-year rule.
pub open spec fn spec_is_leap(y: int) -> bool {
    (y % 4 == 0 && y % 100 != 0) || y % 400 == 0
}

/// Whether `year` is a leap year.
pub fn is_leap(year: u64) -> (r: bool)
    ensures
        r == spec_is_leap(year as int),
{
    (year % 4 == 0 && year % 100 != 0) || year % 400 == 0
}

/// Days in year `y`.
pub open spec fn spec_days_in_year(y: int) -> int {
    if spec_is_leap(y) {
        366
    } else {
        365
    }
}

/// Days in month `m` (1-based) of year `y`.
pub open spec fn spec_month_len(y: int, m: int) -> int {
    if m == 2 {
        if spec_is_leap(y) {
            29
        } else {
            28
        }
    } else if m == 4 || m == 6 || m == 9 || m == 11 {
        30
    } else {
        31
    }
}

fn month_len(year: u64, m: u64) -> (r: u64)
    ensures
        r == spec_month_len(year as int, m as int),
{
    if m == 2 {
        if is_leap(year) {
            29
        } else {
            28
        }
    } else if m == 4 || m == 6 || m == 9 || m == 11 {
        30
    } else {
        31
    }
}

/// Consume whole years starting at `y`: the year the day count lands in
/// and the remaining days into that year.
pub open spec fn spec_year_rem(days: int, y: int) -> (int, int)
    decreases days,
{
    if days < spec_days_in_year(y) {
        (y, days)
    } else {
        spec_year_rem(days - spec_days_in_year(y), y + 1)
    }
}

/// Consume whole months of year `y` starting at month `m`.
pub open spec fn spec_month_rem(days: int, y: int, m: int) -> (int, int)
    decreases 12 - m,
{
    if m >= 12 || days < spec_month_len(y, m) {
        (m, days)
    } else {
        spec_month_rem(days - spec_month_len(y, m), y, m + 1)
    }
}

/// Calendar date (year, month, day) of a day count since 1970-01-01.
pub open spec fn spec_ymd(days: int) -> (int, int, int) {
    let yr = spec_year_rem(days, 1970);
    let mr = spec_month_rem(yr.1, yr.0, 1);
    (yr.0, mr.0, mr.1 + 1)
}

/// Days in months `m..=12` of year `y`.
pub open spec fn spec_days_from_month(y: int, m: int) -> int
    decreases 13 - m,
{
    if m > 12 {
        0
    } else {
        spec_month_len(y, m) + spec_days_from_month(y, m + 1)
    }
}

proof fn lemma_days_from_month_total(y: int)
    ensures
        spec_days_from_month(y, 1) == spec_days_in_year(y),
{
    reveal_with_fuel(spec_days_from_month, 14);
}

proof fn lemma_year_rem_bounds(days: int, y: int)
    requires
        0 <= days,
    ensures
        spec_year_rem(days, y).0 >= y,
        0 <= spec_year_rem(days, y).1 < spec_days_in_year(spec_year_rem(days, y).0),
    decreases days,
{
    if days >= spec_days_in_year(y) {
        lemma_year_rem_bounds(days - spec_days_in_year(y), y + 1);
    }
}

proof fn lemma_month_rem_bounds(days: int, y: int, m: int)
    requires
        1 <= m <= 12,
        0 <= days < spec_days_from_month(y, m),
    ensures
        m <= spec_month_rem(days, y, m).0 <= 12,
        0 <= spec_month_rem(days, y, m).1 < spec_month_len(y, spec_month_rem(days, y, m).0),
    decreases 12 - m,
{
    reveal_with_fuel(spec_days_from_month, 3);
    if !(m >= 12 || days < spec_month_len(y, m)) {
        lemma_month_rem_bounds(days - spec_month_len(y, m), y, m + 1);
    }
}

/// The date of any non-negative day count is well-formed.
pub proof fn lemma_ymd_bounds(days: int)
    requires
        0 <= days,
    ensures
        1970 <= spec_ymd(days).0,
        1 <= spec_ymd(days).1 <= 12,
        1 <= spec_ymd(days).2 <= 31,
{
    let yr = spec_year_rem(days, 1970);
    lemma_year_rem_bounds(days, 1970);
    lemma_days_from_month_total(yr.0);
    lemma_month_rem_bounds(yr.1, yr.0, 1);
}

/// Convert a day count since 1970-01-01 to (year, month, day).
pub fn days_to_ymd(days: u64) -> (r: (u64, u64, u64))
    ensures
        (r.0 as int, r.1 as int, r.2 as int) == spec_ymd(days as int),
        1970 <= r.0,
        1 <= r.1 <= 12,
        1 <= r.2 <= 31,
{
    let ghost days0 = days as int;
    let mut d: u64 = days;
    let mut year: u64 = 1970;
    loop
        invariant
            1970 <= year,
            days0 == days as int,
            (year - 1970) * 365 + d <= days0,
            0 <= d,
            spec_year_rem(days0, 1970) == spec_year_rem(d as int, year as int),
        ensures
            1970 <= year,
            spec_year_rem(days0, 1970) == (year as int, d as int),
            0 <= d < spec_days_in_year(year as int),
        decreases d,
    {
        let diy: u64 = if is_leap(year) {
            366
        } else {
            365
        };
        if d < diy {
            break;
        }
        proof {
            assert((year + 1 - 1970) * 365 + (d - diy) <= days0) by (nonlinear_arith)
                requires
                    (year - 1970) * 365 + d <= days0,
                    diy >= 365,
                    year >= 1970,
            ;
            assert(year - 1970 <= days0 / 365) by (nonlinear_arith)
                requires
                    (year - 1970) * 365 + d <= days0,
                    d >= 0,
                    year >= 1970,
            ;
            assert(days0 / 365 <= 0xffffffffffffffffu64 / 365);
        }
        d = d - diy;
        year = year + 1;
    }
    proof {
        lemma_year_rem_bounds(days0, 1970);
        lemma_days_from_month_total(year as int);
        lemma_month_rem_bounds(d as int, year as int, 1);
    }
    let ghost d1 = d as int;
    let mut m: u64 = 1;
    loop
        invariant
            1 <= m <= 12,
            0 <= d,
            spec_month_rem(d1, year as int, 1) == spec_month_rem(d as int, year as int, m as int),
        ensures
            1 <= m <= 12,
            spec_month_rem(d1, year as int, 1) == (m as int, d as int),
        decreases 12 - m,
    {
        if m >= 12 {
            break;
        }
        let ml = month_len(year, m);
        if d < ml {
            break;
        }
        d = d - ml;
        m = m + 1;
    }
    proof {
        lemma_ymd_bounds(days0);
    }
    (year, m, d + 1)
}

/// Decimal digits of `n`, most significant first; empty for zero.
pub open spec fn spec_digits(n: int) -> Seq<u8>
    decreases n,
{
    if n <= 0 {
        Seq::<u8>::empty()
    } else {
        spec_digits(n / 10).push((0x30 + n % 10) as u8)
    }
}

/// Decimal rendering of a non-negative number.
pub open spec fn spec_u64_str(n: int) -> Seq<u8> {
    if n == 0 {
        seq![0x30u8]
    } else {
        spec_digits(n)
    }
}

/// Exactly `w` decimal digits of `n` (mod `10^w`), zero padded.
pub open spec fn spec_pad(n: int, w: int) -> Seq<u8>
    decreases w,
{
    if w <= 0 {
        Seq::<u8>::empty()
    } else {
        spec_pad(n / 10, w - 1).push((0x30 + n % 10) as u8)
    }
}

/// Powers of ten.
pub open spec fn pow10(w: int) -> int
    decreases w,
{
    if w <= 0 {
        1
    } else {
        10 * pow10(w - 1)
    }
}

pub proof fn lemma_pad_len(n: int, w: int)
    requires
        w >= 0,
    ensures
        spec_pad(n, w).len() == w,
    decreases w,
{
    if w > 0 {
        lemma_pad_len(n / 10, w - 1);
    }
}

pub proof fn lemma_pad_ascii_digits(n: int, w: int)
    requires
        n >= 0,
        w >= 0,
    ensures
        forall|i: int|
            0 <= i < spec_pad(n, w).len() ==> 0x30 <= #[trigger] spec_pad(n, w)[i] <= 0x39,
    decreases w,
{
    if w > 0 {
        lemma_pad_ascii_digits(n / 10, w - 1);
        assert(0 <= n % 10 < 10);
        assert(spec_pad(n, w) == spec_pad(n / 10, w - 1).push((0x30 + n % 10) as u8));
    }
}

pub proof fn lemma_digits_ascii(n: int)
    requires
        n >= 0,
    ensures
        forall|i: int|
            0 <= i < spec_u64_str(n).len() ==> 0x30 <= #[trigger] spec_u64_str(n)[i] <= 0x39,
    decreases n,
{
    if n > 0 {
        if n / 10 > 0 {
            lemma_digits_ascii(n / 10);
        }
        assert forall|i: int|
            0 <= i < spec_digits(n).len() implies 0x30 <= #[trigger] spec_digits(n)[i]
            <= 0x39 by {
            if i < spec_digits(n).len() - 1 {
                assert(spec_digits(n)[i] == spec_digits(n / 10)[i]);
                if n / 10 > 0 {
                    assert(spec_u64_str(n / 10)[i] == spec_digits(n / 10)[i]);
                }
            }
        }
    }
}

/// Padding to a fixed width is strictly monotone below `10^w`.
pub proof fn lemma_pad_monotone(a: int, b: int, w: int)
    requires
        0 <= a <= b,
        b < pow10(w),
        w >= 0,
    ensures
        a < b ==> lex_lt(spec_pad(a, w), spec_pad(b, w)),
        a == b ==> spec_pad(a, w) == spec_pad(b, w),
    decreases w,
{
    if a < b {
        // w == 0 would force a == b since both lie in [0, 1).
        let pa = spec_pad(a / 10, w - 1);
        let pb = spec_pad(b / 10, w - 1);
        let da = (0x30 + a % 10) as u8;
        let db = (0x30 + b % 10) as u8;
        lemma_pad_len(a / 10, w - 1);
        lemma_pad_len(b / 10, w - 1);
        assert(a / 10 <= b / 10 && b / 10 < pow10(w - 1) && (a / 10 == b / 10 ==> a % 10 < b
            % 10)) by (nonlinear_arith)
            requires
                0 <= a < b,
                b < pow10(w),
                pow10(w) == 10 * pow10(w - 1),
                w >= 1,
        ;
        lemma_pad_monotone(a / 10, b / 10, w - 1);
        assert(spec_pad(a, w) =~= pa + seq![da]);
        assert(spec_pad(b, w) =~= pb + seq![db]);
        lemma_lex_concat(pa, pb, seq![da], seq![db]);
        if a / 10 == b / 10 {
            assert(lex_lt(seq![da], seq![db]));
        }
    }
}

/// The RFC 3339 UTC rendering of a Unix timestamp in seconds, as bytes.
pub open spec fn spec_rfc3339(secs: int) -> Seq<u8> {
    let ymd = spec_ymd(secs / 86400);
    let year_part = if ymd.0 < pow10(4) {
        spec_pad(ymd.0, 4)
    } else {
        spec_u64_str(ymd.0)
    };
    year_part + (seq![0x2du8] + (spec_pad(ymd.1, 2) + (seq![0x2du8] + (spec_pad(ymd.2, 2) + (
    seq![0x54u8] + (spec_pad((secs / 3600) % 24, 2) + (seq![0x3au8] + (spec_pad(
        (secs / 60) % 60,
        2,
    ) + (seq![0x3au8] + (spec_pad(secs % 60, 2) + seq![0x5au8]))))))))))
}

/// Append exactly `w` zero-padded decimal digits of `n`.
fn push_fixed(out: &mut Vec<u8>, n: u64, w: usize)
    ensures
        final(out)@ == old(out)@ + spec_pad(n as int, w as int),
    decreases w,
{
    if w == 0 {
        proof {
            assert(out@ =~= old(out)@ + spec_pad(n as int, 0));
        }
    } else {
        push_fixed(out, n / 10, w - 1);
        out.push(0x30 + (n % 10) as u8);
        proof {
            assert(out@ =~= old(out)@ + spec_pad(n as int, w as int));
        }
    }
}

/// Append the decimal rendering of `n`.
pub fn push_u64(out: &mut Vec<u8>, n: u64)
    ensures
        final(out)@ == old(out)@ + spec_u64_str(n as int),
{
    if n == 0 {
        out.push(0x30);
        proof {
            assert(out@ =~= old(out)@ + spec_u64_str(0));
        }
        return;
    }
    let mut tmp: Vec<u8> = Vec::new();
    let mut m: u64 = n;
    while m > 0
        invariant
            0 <= m,
            spec_digits(n as int) == spec_digits(m as int) + tmp@.reverse(),
        decreases m,
    {
        let d: u8 = 0x30 + (m % 10) as u8;
        tmp.push(d);
        proof {
            assert(spec_digits(m as int) == spec_digits((m / 10) as int).push(d));
            assert(tmp@.reverse() =~= seq![d] + tmp@.drop_last().reverse());
            assert(spec_digits((m / 10) as int) + tmp@.reverse() =~= spec_digits(
                (m / 10) as int,
            ).push(d) + tmp@.drop_last().reverse());
        }
        m = m / 10;
    }
    proof {
        assert(spec_digits(0) =~= Seq::<u8>::empty());
        assert(spec_digits(n as int) =~= tmp@.reverse());
    }
    let mut j: usize = tmp.len();
    while j > 0
        invariant
            0 <= j <= tmp@.len(),
            out@ == old(out)@ + tmp@.reverse().take(tmp@.len() - j),
        decreases j,
    {
        j = j - 1;
        out.push(tmp[j]);
        proof {
            let r = tmp@.reverse();
            assert(r[tmp@.len() - j - 1] == tmp@[j as int]);
            assert(r.take(tmp@.len() - j) =~= r.take(tmp@.len() - j - 1).push(tmp@[j as int]));
            assert(out@ =~= old(out)@ + r.take(tmp@.len() - j));
        }
    }
    proof {
        assert(tmp@.reverse().take(tmp@.len() as int) =~= tmp@.reverse());
        assert(out@ =~= old(out)@ + spec_u64_str(n as int));
    }
}

/// Render a Unix timestamp (seconds) as an RFC 3339 UTC string.
pub fn format_rfc3339(secs: u64) -> (r: String)
    ensures
        r@ == ascii_chars_of(spec_rfc3339(secs as int)),
{
    let days: u64 = secs / 86400;
    let hour: u64 = (secs / 3600) % 24;
    let min: u64 = (secs / 60) % 60;
    let sec: u64 = secs % 60;
    let (year, month, day) = days_to_ymd(days);

    let mut out: Vec<u8> = Vec::new();
    proof {
        reveal_with_fuel(pow10, 5);
    }
    if year <= 9999 {
        push_fixed(&mut out, year, 4);
    } else {
        push_u64(&mut out, year);
    }
    out.push(0x2d);
    push_fixed(&mut out, month, 2);
    out.push(0x2d);
    push_fixed(&mut out, day, 2);
    out.push(0x54);
    push_fixed(&mut out, hour, 2);
    out.push(0x3a);
    push_fixed(&mut out, min, 2);
    out.push(0x3a);
    push_fixed(&mut out, sec, 2);
    out.push(0x5a);
    proof {
        assert(out@ =~= spec_rfc3339(secs as int));
        lemma_rfc3339_ascii(secs as int);
    }
    ascii_to_string(&out)
}

/// Every byte of a rendered timestamp is ASCII.
pub proof fn lemma_rfc3339_ascii(secs: int)
    requires
        secs >= 0,
    ensures
        all_ascii(spec_rfc3339(secs)),
{
    let ymd = spec_ymd(secs / 86400);
    lemma_ymd_bounds(secs / 86400);
    lemma_pad_ascii_digits(ymd.0, 4);
    lemma_digits_ascii(ymd.0);
    lemma_pad_ascii_digits(ymd.1, 2);
    lemma_pad_ascii_digits(ymd.2, 2);
    lemma_pad_ascii_digits((secs / 3600) % 24, 2);
    lemma_pad_ascii_digits((secs / 60) % 60, 2);
    lemma_pad_ascii_digits(secs % 60, 2);
}

proof fn lemma_year_rem_monotone(d1: int, d2: int, y: int)
    requires
        0 <= d1 <= d2,
    ensures
        spec_year_rem(d1, y).0 <= spec_year_rem(d2, y).0,
        spec_year_rem(d1, y).0 == spec_year_rem(d2, y).0 ==> spec_year_rem(d1, y).1
            <= spec_year_rem(d2, y).1,
        spec_year_rem(d1, y).0 == spec_year_rem(d2, y).0 && d1 < d2 ==> spec_year_rem(d1, y).1
            < spec_year_rem(d2, y).1,
    decreases d2,
{
    let diy = spec_days_in_year(y);
    if d1 < diy {
        if d2 >= diy {
            lemma_year_rem_bounds(d2 - diy, y + 1);
        }
    } else {
        lemma_year_rem_monotone(d1 - diy, d2 - diy, y + 1);
    }
}

proof fn lemma_month_rem_ge(days: int, y: int, m: int)
    ensures
        spec_month_rem(days, y, m).0 >= m,
    decreases 12 - m,
{
    if !(m >= 12 || days < spec_month_len(y, m)) {
        lemma_month_rem_ge(days - spec_month_len(y, m), y, m + 1);
    }
}

proof fn lemma_month_rem_monotone(d1: int, d2: int, y: int, m: int)
    requires
        0 <= d1 <= d2,
    ensures
        spec_month_rem(d1, y, m).0 <= spec_month_rem(d2, y, m).0,
        spec_month_rem(d1, y, m).0 == spec_month_rem(d2, y, m).0 ==> spec_month_rem(d1, y, m).1
            <= spec_month_rem(d2, y, m).1,
        spec_month_rem(d1, y, m).0 == spec_month_rem(d2, y, m).0 && d1 < d2 ==> spec_month_rem(
            d1,
            y,
            m,
        ).1 < spec_month_rem(d2, y, m).1,
    decreases 12 - m,
{
    let ml = spec_month_len(y, m);
    if m >= 12 {
    } else if d1 < ml {
        if d2 >= ml {
            lemma_month_rem_ge(d2 - ml, y, m + 1);
        }
    } else {
        lemma_month_rem_monotone(d1 - ml, d2 - ml, y, m + 1);
    }
}

/// The RFC 3339 rendering is monotone: of two instants through the year
/// 9999, the earlier one renders as the lexicographically smaller string.
/// This is what makes `updated_at` values comparable as strings.
pub proof fn lemma_rfc3339_monotone(s1: int, s2: int)
    requires
        0 <= s1 <= s2,
        spec_ymd(s2 / 86400).0 <= 9999,
    ensures
        lex_le(spec_rfc3339(s1), spec_rfc3339(s2)),
{
    reveal_with_fuel(pow10, 5);
    vstd::arithmetic::div_mod::lemma_div_is_ordered(s1, s2, 86400);
    let d1 = s1 / 86400;
    let d2 = s2 / 86400;
    lemma_ymd_bounds(d1);
    lemma_ymd_bounds(d2);
    lemma_year_rem_bounds(d1, 1970);
    lemma_year_rem_bounds(d2, 1970);
    lemma_year_rem_monotone(d1, d2, 1970);
    let yr1 = spec_year_rem(d1, 1970);
    let yr2 = spec_year_rem(d2, 1970);
    let y1 = yr1.0;
    let y2 = yr2.0;
    let mr1 = spec_month_rem(yr1.1, y1, 1);
    let mr2 = spec_month_rem(yr2.1, y2, 1);
    let mo1 = mr1.0;
    let mo2 = mr2.0;
    let dy1 = mr1.1 + 1;
    let dy2 = mr2.1 + 1;
    let h1 = (s1 / 3600) % 24;
    let h2 = (s2 / 3600) % 24;
    let mi1 = (s1 / 60) % 60;
    let mi2 = (s2 / 60) % 60;
    let se1 = s1 % 60;
    let se2 = s2 % 60;

    let aa1 = spec_pad(y1, 4);
    let aa2 = spec_pad(y2, 4);
    let mm1 = spec_pad(mo1, 2);
    let mm2 = spec_pad(mo2, 2);
    let dd1 = spec_pad(dy1, 2);
    let dd2 = spec_pad(dy2, 2);
    let hh1 = spec_pad(h1, 2);
    let hh2 = spec_pad(h2, 2);
    let nn1 = spec_pad(mi1, 2);
    let nn2 = spec_pad(mi2, 2);
    let ss1 = spec_pad(se1, 2);
    let ss2 = spec_pad(se2, 2);
    let dash = seq![0x2du8];
    let tt = seq![0x54u8];
    let col = seq![0x3au8];
    let zz = seq![0x5au8];

    let t11_1 = ss1 + zz;
    let t11_2 = ss2 + zz;
    let t9_1 = nn1 + (col + t11_1);
    let t9_2 = nn2 + (col + t11_2);
    let t7_1 = hh1 + (col + t9_1);
    let t7_2 = hh2 + (col + t9_2);
    let t5_1 = dd1 + (tt + t7_1);
    let t5_2 = dd2 + (tt + t7_2);
    let t3_1 = mm1 + (dash + t5_1);
    let t3_2 = mm2 + (dash + t5_2);
    assert(spec_rfc3339(s1) == aa1 + (dash + t3_1));
    assert(spec_rfc3339(s2) == aa2 + (dash + t3_2));

    lemma_pad_len(y1, 4);
    lemma_pad_len(y2, 4);
    lemma_pad_len(mo1, 2);
    lemma_pad_len(mo2, 2);
    lemma_pad_len(dy1, 2);
    lemma_pad_len(dy2, 2);
    lemma_pad_len(h1, 2);
    lemma_pad_len(h2, 2);
    lemma_pad_len(mi1, 2);
    lemma_pad_len(mi2, 2);
    lemma_pad_len(se1, 2);
    lemma_pad_len(se2, 2);

    if y1 < y2 {
        lemma_pad_monotone(y1, y2, 4);
        lemma_lex_concat(aa1, aa2, dash + t3_1, dash + t3_2);
    } else {
        // Years equal; compare within the year.
        assert(y1 == y2);
        assert(aa1 == aa2);
        assert(yr1.1 <= yr2.1);
        lemma_month_rem_monotone(yr1.1, yr2.1, y1, 1);
        if mo1 < mo2 {
            lemma_pad_monotone(mo1, mo2, 2);
            lemma_lex_concat(mm1, mm2, dash + t5_1, dash + t5_2);
        } else {
            assert(mo1 == mo2);
            assert(mm1 == mm2);
            if dy1 < dy2 {
                lemma_pad_monotone(dy1, dy2, 2);
                lemma_lex_concat(dd1, dd2, tt + t7_1, tt + t7_2);
            } else {
                assert(dy1 == dy2);
                assert(dd1 == dd2);
                // The whole date is equal, so the day counts are equal.
                if d1 < d2 {
                    assert(false);
                }
                assert(d1 == d2);
                // Same day: the hour, minute and second fields follow the
                // clock within the day.
                vstd::arithmetic::div_mod::lemma_div_is_ordered(s1, s2, 3600);
                vstd::arithmetic::div_mod::lemma_div_denominator(s1, 3600, 24);
                vstd::arithmetic::div_mod::lemma_div_denominator(s2, 3600, 24);
                let q1 = s1 / 3600;
                let q2 = s2 / 3600;
                assert(q1 / 24 == d1 && q2 / 24 == d2);
                vstd::arithmetic::div_mod::lemma_fundamental_div_mod(q1, 24);
                vstd::arithmetic::div_mod::lemma_fundamental_div_mod(q2, 24);
                assert(h1 <= h2);
                if h1 < h2 {
                    lemma_pad_monotone(h1, h2, 2);
                    lemma_lex_concat(hh1, hh2, col + t9_1, col + t9_2);
                } else {
                    assert(h1 == h2);
                    assert(hh1 == hh2);
                    assert(q1 == q2);
                    vstd::arithmetic::div_mod::lemma_div_is_ordered(s1, s2, 60);
                    vstd::arithmetic::div_mod::lemma_div_denominator(s1, 60, 60);
                    vstd::arithmetic::div_mod::lemma_div_denominator(s2, 60, 60);
                    let u1 = s1 / 60;
                    let u2 = s2 / 60;
                    assert(u1 / 60 == q1 && u2 / 60 == q2);
                    vstd::arithmetic::div_mod::lemma_fundamental_div_mod(u1, 60);
                    vstd::arithmetic::div_mod::lemma_fundamental_div_mod(u2, 60);
                    assert(mi1 <= mi2);
                    if mi1 < mi2 {
                        lemma_pad_monotone(mi1, mi2, 2);
                        lemma_lex_concat(nn1, nn2, col + t11_1, col + t11_2);
                    } else {
                        assert(mi1 == mi2);
                        assert(nn1 == nn2);
                        assert(u1 == u2);
                        vstd::arithmetic::div_mod::lemma_fundamental_div_mod(s1, 60);
                        vstd::arithmetic::div_mod::lemma_fundamental_div_mod(s2, 60);
                        assert(se1 <= se2);
                        if se1 < se2 {
                            lemma_pad_monotone(se1, se2, 2);
                            lemma_lex_concat(ss1, ss2, zz, zz);
                        } else {
                            assert(se1 == se2);
                            assert(ss1 == ss2);
                            assert(t11_1 == t11_2);
                        }
                        assert(lex_le(t11_1, t11_2));
                        crate::order::lemma_lex_prefix_le(col, t11_1, t11_2);
                        lemma_lex_concat(nn1, nn2, col + t11_1, col + t11_2);
                    }
                    assert(lex_le(t9_1, t9_2));
                    crate::order::lemma_lex_prefix_le(col, t9_1, t9_2);
                    lemma_lex_concat(hh1, hh2, col + t9_1, col + t9_2);
                }
                assert(lex_le(t7_1, t7_2));
                crate::order::lemma_lex_prefix_le(tt, t7_1, t7_2);
                lemma_lex_concat(dd1, dd2, tt + t7_1, tt + t7_2);
            }
            assert(lex_le(t5_1, t5_2));
            crate::order::lemma_lex_prefix_le(dash, t5_1, t5_2);
            lemma_lex_concat(mm1, mm2, dash + t5_1, dash + t5_2);
        }
        assert(lex_le(t3_1, t3_2));
        crate::order::lemma_lex_prefix_le(dash, t3_1, t3_2);
        lemma_lex_concat(aa1, aa2, dash + t3_1, dash + t3_2);
    }
}

/// Relies on `std::time::SystemTime::now`, `SystemTime::duration_since`
/// and `Duration::as_secs` to read the wall clock as whole seconds since
/// the Unix epoch.  Nothing is assumed about the value.
#[verifier::external_body]
fn now_secs() -> u64 {
    std::time::SystemTime::now()
        .duration_since(std::time::UNIX_EPOCH)
        .unwrap_or_default()
        .as_secs()
}

/// The current wall-clock instant as an RFC 3339 UTC string.
pub fn now_rfc3339() -> (r: String)
    ensures
        exists|s: int| 0 <= s && r@ == ascii_chars_of(#[trigger] spec_rfc3339(s)),
{
    let secs = now_secs();
    let r = format_rfc3339(secs);
    proof {
        assert(r@ == ascii_chars_of(spec_rfc3339(secs as int)));
    }
    r
}

/// The current wall-clock instant as an RFC 3339 UTC string.
pub fn now_rfc3339_pub() -> (r: String)
    ensures
        exists|s: int| 0 <= s && r@ == ascii_chars_of(#[trigger] spec_rfc3339(s)),
{
    now_rfc3339()
}

} // verus!
