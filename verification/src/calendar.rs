//! Proleptic Gregorian calendar arithmetic on Unix time, and the `YYYY-MM`
//! month labels built from it.
use vstd::prelude::*;
use vstd::utf8::{encode_utf8, is_ascii_chars, is_ascii_chars_encode_utf8};
use crate::text::{push_char, digit, digit_char, bytes_le, ascii_bytes, lemma_bytes_le_first_difference};

verus! {

// ── The calendar, stated directly ───────────────────────────────────────

/// Leap years of the proleptic Gregorian calendar.
pub open spec fn is_leap_year(y: int) -> bool {
    y % 4 == 0 && (y % 100 != 0 || y % 400 == 0)
}

/// Days from 0000-01-01 to y-01-01: 365 per year plus one per leap year in `[0, y)`.
pub open spec fn days_before_year(y: int) -> int {
    365 * y + (y + 3) / 4 - (y + 99) / 100 + (y + 399) / 400
}

/// Length in days of month `m` (1 = January) of year `y`.
pub open spec fn month_length(y: int, m: int) -> int {
    if m == 2 {
        if is_leap_year(y) { 29 } else { 28 }
    } else if m == 4 || m == 6 || m == 9 || m == 11 {
        30
    } else {
        31
    }
}

/// Days from January 1 of year `y` to the first day of month `m`.
pub open spec fn days_before_month(y: int, m: int) -> int {
    let common: int = if m <= 1 { 0 }
        else if m == 2 { 31 }
        else if m == 3 { 59 }
        else if m == 4 { 90 }
        else if m == 5 { 120 }
        else if m == 6 { 151 }
        else if m == 7 { 181 }
        else if m == 8 { 212 }
        else if m == 9 { 243 }
        else if m == 10 { 273 }
        else if m == 11 { 304 }
        else { 334 };
    common + if m > 2 && is_leap_year(y) { 1int } else { 0 }
}

/// Days from 0000-01-01 to 1970-01-01.
pub open spec fn unix_epoch_day() -> int {
    719528
}

/// The day number (days since 1970-01-01) of the first day of month `m` of year `y`.
pub open spec fn month_start(y: int, m: int) -> int {
    days_before_year(y) + days_before_month(y, m) - unix_epoch_day()
}

/// Day number `day` (days since 1970-01-01) falls in month `m` of year `y`.
pub open spec fn is_month_of_day(y: int, m: int, day: int) -> bool {
    &&& 1 <= m <= 12
    &&& month_start(y, m) <= day < month_start(y, m) + month_length(y, m)
}

/// The UTC day number of Unix time `secs`.
pub open spec fn day_of_secs(secs: int) -> int {
    secs / 86400
}

/// The (year, month) in which day number `day` falls.
pub open spec fn year_month_of_day(day: int) -> (int, int) {
    choose|ym: (int, int)| is_month_of_day(ym.0, ym.1, day)
}

// ── Month labels ────────────────────────────────────────────────────────

/// Decimal digits of `n`, most significant first, without leading zeros.
pub open spec fn decimal_digits(n: nat) -> Seq<char>
    decreases n,
{
    if n < 10 {
        seq![digit_char(n as int)]
    } else {
        decimal_digits(n / 10).push(digit_char((n % 10) as int))
    }
}

/// `n` written as `format!("{:0w$}", n)` writes it: an optional `-`, then zeros
/// up to the width `w`, then the decimal digits of `|n|`.
pub open spec fn zero_padded(n: int, width: int) -> Seq<char> {
    let sign: Seq<char> = if n < 0 { seq!['-'] } else { seq![] };
    let digits = decimal_digits((if n < 0 { -n } else { n }) as nat);
    let pad = width - sign.len() - digits.len();
    sign + Seq::new((if pad > 0 { pad } else { 0 }) as nat, |i: int| '0') + digits
}

/// The label `YYYY-MM` of month `m` of year `y` (`format!("{:04}-{:02}", y, m)`).
pub open spec fn month_label(y: int, m: int) -> Seq<char> {
    zero_padded(y, 4) + seq!['-'] + zero_padded(m, 2)
}

/// The label of the UTC month in which Unix time `secs` falls.
pub open spec fn utc_month_label(secs: int) -> Seq<char> {
    month_label(year_month_of_day(day_of_secs(secs)).0, year_month_of_day(day_of_secs(secs)).1)
}

// ── Lemmas on the calendar ──────────────────────────────────────────────

/// Days from the 1 March that opens a 400-year era to the 1 March that opens its year `k`.
spec fn era_year_start(k: int) -> int {
    365 * k + k / 4 - k / 100 + k / 400
}

/// Days from 1 March to the first day of the `mp`-th month counted from March.
spec fn march_month_start(mp: int) -> int {
    (153 * mp + 2) / 5
}

proof fn lemma_year_of_era(doe: int)
    requires
        0 <= doe < 146097,
    ensures
        ({
            let yoe = (doe - doe / 1460 + doe / 36524 - doe / 146096) / 365;
            &&& 0 <= yoe <= 399
            &&& era_year_start(yoe) <= doe < era_year_start(yoe + 1)
            &&& era_year_start(yoe) == 365 * yoe + yoe / 4 - yoe / 100
        }),
{
}

proof fn lemma_month_of_year(doy: int)
    requires
        0 <= doy <= 365,
    ensures
        ({
            let mp = (5 * doy + 2) / 153;
            &&& 0 <= mp <= 11
            &&& march_month_start(mp) <= doy < march_month_start(mp + 1)
        }),
{
}

/// Whole eras of 400 years shift every day count by 146097 days.
proof fn lemma_days_before_year_eras(y: int, era: int)
    ensures
        days_before_year(y + 400 * era) == days_before_year(y) + 146097 * era,
{
    assert((y + 400 * era + 3) / 4 == (y + 3) / 4 + 100 * era) by (nonlinear_arith);
    assert((y + 400 * era + 99) / 100 == (y + 99) / 100 + 4 * era) by (nonlinear_arith);
    assert((y + 400 * era + 399) / 400 == (y + 399) / 400 + era) by (nonlinear_arith);
}

/// Leap years repeat every 400 years.
proof fn lemma_leap_year_eras(y: int, era: int)
    ensures
        is_leap_year(y + 400 * era) == is_leap_year(y),
        days_before_month(y + 400 * era, 3) == days_before_month(y, 3),
{
    assert((y + 400 * era) % 4 == y % 4) by (nonlinear_arith);
    assert((y + 400 * era) % 100 == y % 100) by (nonlinear_arith);
    assert((y + 400 * era) % 400 == y % 400) by (nonlinear_arith);
}

/// Division by `d` steps up by one exactly at the multiples of `d`.
proof fn lemma_div_steps(y: int, d: int)
    requires
        d > 0,
    ensures
        (y + 1) / d == y / d + if (y + 1) % d == 0 { 1int } else { 0 },
        (y + d - 1) / d == y / d + if y % d == 0 { 0int } else { 1 },
{
    let q = y / d;
    let r = y % d;
    assert(y == d * q + r && 0 <= r < d) by (nonlinear_arith)
        requires
            d > 0,
            q == y / d,
            r == y % d,
    {
    }
    assert((y + 1) / d == q + if r == d - 1 { 1int } else { 0 }) by (nonlinear_arith)
        requires
            d > 0,
            y == d * q + r,
            0 <= r < d,
    {
    }
    assert((y + 1) % d == 0 <==> r == d - 1) by (nonlinear_arith)
        requires
            d > 0,
            y == d * q + r,
            0 <= r < d,
    {
    }
    assert((y + d - 1) / d == q + if r == 0 { 0int } else { 1 }) by (nonlinear_arith)
        requires
            d > 0,
            y == d * q + r,
            0 <= r < d,
    {
    }
}

/// Within an era, the January-based count of days before the year plus the
/// year's own leap day is one more than the March-based count.
proof fn lemma_era_year_counts(t: int)
    requires
        0 <= t <= 399,
    ensures
        days_before_year(t) + (if is_leap_year(t) { 1int } else { 0 }) == 1 + era_year_start(t),
        era_year_start(t + 1) - era_year_start(t) == 365 + if is_leap_year(t + 1) { 1int } else { 0 },
{
    lemma_div_steps(t, 4);
    lemma_div_steps(t, 100);
    lemma_div_steps(t, 400);
}

/// The months counted from March, against the calendar's month table.
proof fn lemma_march_months(mp: int)
    requires
        0 <= mp <= 11,
    ensures
        mp < 10 ==> days_before_month(1, mp + 3) == 59 + march_month_start(mp),
        mp < 10 ==> month_length(1, mp + 3) == march_month_start(mp + 1) - march_month_start(mp),
        mp == 10 ==> march_month_start(mp) == 306 && march_month_start(mp + 1) - march_month_start(mp) == 31,
        mp == 11 ==> march_month_start(mp) == 337,
{
}

/// The March-based counting of one era agrees with the calendar.
proof fn lemma_march_based(yoe: int, mp: int)
    requires
        0 <= yoe <= 399,
        0 <= mp <= 11,
    ensures
        ({
            let m = if mp < 10 { mp + 3 } else { mp - 9 };
            let y = yoe + if m <= 2 { 1int } else { 0 };
            &&& days_before_year(y) + days_before_month(y, m)
                == 60 + era_year_start(yoe) + march_month_start(mp)
            &&& mp < 11 ==> month_length(y, m) == march_month_start(mp + 1) - march_month_start(mp)
            &&& mp == 11 ==> month_length(y, m)
                == era_year_start(yoe + 1) - era_year_start(yoe) - march_month_start(11)
        }),
{
    lemma_era_year_counts(yoe);
    lemma_march_months(mp);
    lemma_year_length(yoe);
}

/// Counting multiples of `d` below `y + 1` rather than below `y` adds one exactly when `d` divides `y`.
proof fn lemma_multiples_step(y: int, d: int)
    requires
        d > 0,
    ensures
        (y + d) / d - (y + d - 1) / d == if y % d == 0 { 1int } else { 0 },
{
    let q = y / d;
    let r = y % d;
    assert(y == d * q + r && 0 <= r < d) by (nonlinear_arith)
        requires
            d > 0,
            q == y / d,
            r == y % d,
    {
    }
    assert((y + d) / d == q + 1) by (nonlinear_arith)
        requires
            d > 0,
            y == d * q + r,
            0 <= r < d,
    {
    }
    assert((y + d - 1) / d == q + if r == 0 { 0int } else { 1 }) by (nonlinear_arith)
        requires
            d > 0,
            y == d * q + r,
            0 <= r < d,
    {
    }
}

/// A year has 366 days when it is a leap year and 365 otherwise.
proof fn lemma_year_length(y: int)
    ensures
        days_before_year(y + 1) == days_before_year(y) + if is_leap_year(y) { 366int } else { 365 },
{
    lemma_multiples_step(y, 4);
    lemma_multiples_step(y, 100);
    lemma_multiples_step(y, 400);
}

/// Consecutive months tile the day line.
proof fn lemma_next_month(y: int, m: int)
    requires
        1 <= m <= 12,
    ensures
        m < 12 ==> month_start(y, m) + month_length(y, m) == month_start(y, m + 1),
        m == 12 ==> month_start(y, m) + month_length(y, m) == month_start(y + 1, 1),
{
    lemma_year_length(y);
}

/// A later year starts no earlier than the end of any month of an earlier year.
proof fn lemma_year_order(y1: int, m1: int, y2: int, m2: int)
    requires
        1 <= m1 <= 12,
        1 <= m2 <= 12,
        y1 < y2,
    ensures
        month_start(y1, m1) + month_length(y1, m1) <= month_start(y2, m2),
{
    lemma_next_month(y1, 12);
    assert(days_before_year(y1 + 1) <= days_before_year(y2)) by (nonlinear_arith)
        requires
            y1 + 1 <= y2,
    {
    }
}

/// Each day falls in exactly one month: the months of the calendar are disjoint.
pub proof fn lemma_month_of_day_unique(y1: int, m1: int, y2: int, m2: int, day: int)
    requires
        is_month_of_day(y1, m1, day),
        is_month_of_day(y2, m2, day),
    ensures
        y1 == y2,
        m1 == m2,
{
    if y1 < y2 {
        lemma_year_order(y1, m1, y2, m2);
    } else if y2 < y1 {
        lemma_year_order(y2, m2, y1, m1);
    }
}

/// The days-to-civil conversion on 400-year eras, step by step: the era, the day
/// of the era, the year of the era, the day of the March-based year, the
/// March-based month, then the calendar month and year.
spec fn civil_steps(days: int) -> (int, int) {
    let z = days + 719468;
    let era = z / 146097;
    let doe = z % 146097;
    let yoe = (doe - doe / 1460 + doe / 36524 - doe / 146096) / 365;
    let doy = doe - (365 * yoe + yoe / 4 - yoe / 100);
    let mp = (5 * doy + 2) / 153;
    let m = if mp < 10 { mp + 3 } else { mp - 9 };
    (yoe + era * 400 + if m <= 2 { 1int } else { 0 }, m)
}

proof fn lemma_civil_steps_month(days: int)
    ensures
        is_month_of_day(civil_steps(days).0, civil_steps(days).1, days),
{
    let z = days + 719468;
    let era = z / 146097;
    let doe = z % 146097;
    lemma_year_of_era(doe);
    let yoe = (doe - doe / 1460 + doe / 36524 - doe / 146096) / 365;
    let doy = doe - (365 * yoe + yoe / 4 - yoe / 100);
    lemma_month_of_year(doy);
    let mp = (5 * doy + 2) / 153;
    let m = if mp < 10 { mp + 3 } else { mp - 9 };
    let y0 = yoe + if m <= 2 { 1int } else { 0 };
    lemma_march_based(yoe, mp);
    lemma_days_before_year_eras(y0, era);
    lemma_leap_year_eras(y0, era);
    assert(z == 146097 * era + doe);
    let y = y0 + 400 * era;
    assert(civil_steps(days) == (y, m));
    assert(month_length(y, m) == month_length(y0, m));
    assert(days_before_month(y, m) == days_before_month(y0, m));
    assert(month_start(y, m) == 146097 * era + era_year_start(yoe) + march_month_start(mp) - 719468);
}

proof fn lemma_civil_steps(days: int)
    ensures
        is_month_of_day(civil_steps(days).0, civil_steps(days).1, days),
        civil_steps(days) == year_month_of_day(days),
{
    lemma_civil_steps_month(days);
    let ym = year_month_of_day(days);
    lemma_month_of_day_unique(ym.0, ym.1, civil_steps(days).0, civil_steps(days).1, days);
}

/// Every day falls in some month, and `year_month_of_day` names it: the month
/// of a day is the one month whose days contain it.
pub proof fn lemma_year_month_of_day(y: int, m: int, day: int)
    requires
        is_month_of_day(y, m, day),
    ensures
        year_month_of_day(day) == (y, m),
{
    lemma_civil_steps(day);
    lemma_month_of_day_unique(y, m, civil_steps(day).0, civil_steps(day).1, day);
}

/// Within a year, an earlier month ends no later than a later month starts.

proof fn lemma_month_order_in_year(y: int, m1: int, m2: int)
    requires
        1 <= m1 < m2 <= 12,
    ensures
        month_start(y, m1) + month_length(y, m1) <= month_start(y, m2),
{
}

/// Time only moves forward through the months: a later day never falls in an
/// earlier month.
pub proof fn lemma_year_month_of_day_monotone(d1: int, d2: int)
    requires
        d1 <= d2,
    ensures
        ({
            let (y1, m1) = year_month_of_day(d1);
            let (y2, m2) = year_month_of_day(d2);
            y1 < y2 || (y1 == y2 && m1 <= m2)
        }),
{
    lemma_civil_steps(d1);
    lemma_civil_steps(d2);
    let (y1, m1) = year_month_of_day(d1);
    let (y2, m2) = year_month_of_day(d2);
    if y2 < y1 {
        lemma_year_order(y2, m2, y1, m1);
    } else if y1 == y2 && m2 < m1 {
        lemma_month_order_in_year(y1, m2, m1);
    }
}

// ── Labels and their order ───────────────────────────────────────────────

proof fn lemma_four_digit_year(y: int)
    requires
        0 <= y <= 9999,
    ensures
        zero_padded(y, 4) == seq![
            digit_char(y / 1000),
            digit_char(y / 100 % 10),
            digit_char(y / 10 % 10),
            digit_char(y % 10),
        ],
{
    reveal_with_fuel(decimal_digits, 5);
    let n = y as nat;
    if y < 10 {
    } else if y < 100 {
        assert(decimal_digits(n / 10) == seq![digit_char(y / 10)]);
    } else if y < 1000 {
        assert(decimal_digits(n / 100) == seq![digit_char(y / 100)]);
        assert(decimal_digits(n / 10) == seq![digit_char(y / 100), digit_char(y / 10 % 10)]);
    } else {
        assert(decimal_digits(n / 1000) == seq![digit_char(y / 1000)]);
        assert(decimal_digits(n / 100) == seq![digit_char(y / 1000), digit_char(y / 100 % 10)]);
        assert(decimal_digits(n / 10) == seq![
            digit_char(y / 1000),
            digit_char(y / 100 % 10),
            digit_char(y / 10 % 10),
        ]);
    }
    assert(zero_padded(y, 4) =~= seq![
        digit_char(y / 1000),
        digit_char(y / 100 % 10),
        digit_char(y / 10 % 10),
        digit_char(y % 10),
    ]);
}

proof fn lemma_two_digit_month(m: int)
    requires
        1 <= m <= 12,
    ensures
        zero_padded(m, 2) == seq![digit_char(m / 10), digit_char(m % 10)],
{
    reveal_with_fuel(decimal_digits, 3);
    if m >= 10 {
        assert(decimal_digits((m as nat) / 10) == seq![digit_char(1)]);
    }
    assert(zero_padded(m, 2) =~= seq![digit_char(m / 10), digit_char(m % 10)]);
}

/// The bytes of the label of a month of a four-digit year.
proof fn lemma_label_bytes(y: int, m: int)
    requires
        0 <= y <= 9999,
        1 <= m <= 12,
    ensures
        ascii_bytes(month_label(y, m)) == seq![
            (48 + y / 1000) as u8,
            (48 + y / 100 % 10) as u8,
            (48 + y / 10 % 10) as u8,
            (48 + y % 10) as u8,
            45u8,
            (48 + m / 10) as u8,
            (48 + m % 10) as u8,
        ],
{
    lemma_four_digit_year(y);
    lemma_two_digit_month(m);
    assert(ascii_bytes(month_label(y, m)) =~= seq![
        (48 + y / 1000) as u8,
        (48 + y / 100 % 10) as u8,
        (48 + y / 10 % 10) as u8,
        (48 + y % 10) as u8,
        45u8,
        (48 + m / 10) as u8,
        (48 + m % 10) as u8,
    ]);
}

proof fn lemma_decimal_digits_ascii(n: nat)
    ensures
        is_ascii_chars(decimal_digits(n)),
    decreases n,
{
    if n >= 10 {
        lemma_decimal_digits_ascii(n / 10);
    }
}

/// A month label is ASCII, so its UTF-8 bytes are its characters.
pub proof fn lemma_month_label_utf8(y: int, m: int)
    ensures
        encode_utf8(month_label(y, m)) == ascii_bytes(month_label(y, m)),
{
    lemma_decimal_digits_ascii((if y < 0 { -y } else { y }) as nat);
    lemma_decimal_digits_ascii((if m < 0 { -m } else { m }) as nat);
    let label = month_label(y, m);
    assert(is_ascii_chars(label));
    is_ascii_chars_encode_utf8(label);
    assert(encode_utf8(label) =~= ascii_bytes(label));
}

/// For the years 0 to 9999, the byte order of `YYYY-MM` labels is the order of
/// time: comparing two labels as strings compares their months.
pub proof fn lemma_month_label_order(y1: int, m1: int, y2: int, m2: int)
    requires
        0 <= y1 <= 9999,
        0 <= y2 <= 9999,
        1 <= m1 <= 12,
        1 <= m2 <= 12,
    ensures
        bytes_le(ascii_bytes(month_label(y1, m1)), ascii_bytes(month_label(y2, m2)))
            <==> (y1 < y2 || (y1 == y2 && m1 <= m2)),
{
    lemma_label_bytes(y1, m1);
    lemma_label_bytes(y2, m2);
    let a = ascii_bytes(month_label(y1, m1));
    let b = ascii_bytes(month_label(y2, m2));
    let (a1, b1, c1, d1, e1, f1) = (y1 / 1000, y1 / 100 % 10, y1 / 10 % 10, y1 % 10, m1 / 10, m1 % 10);
    let (a2, b2, c2, d2, e2, f2) = (y2 / 1000, y2 / 100 % 10, y2 / 10 % 10, y2 % 10, m2 / 10, m2 % 10);
    lemma_decimal_split(y1);
    lemma_decimal_split(y2);
    lemma_decimal_split(m1);
    lemma_decimal_split(m2);
    assert(a[0] as int == 48 + a1 && a[1] as int == 48 + b1 && a[2] as int == 48 + c1);
    assert(a[3] as int == 48 + d1 && a[5] as int == 48 + e1 && a[6] as int == 48 + f1);
    assert(b[0] as int == 48 + a2 && b[1] as int == 48 + b2 && b[2] as int == 48 + c2);
    assert(b[3] as int == 48 + d2 && b[5] as int == 48 + e2 && b[6] as int == 48 + f2);
    let i: int = if a[0] != b[0] { 0 }
        else if a[1] != b[1] { 1 }
        else if a[2] != b[2] { 2 }
        else if a[3] != b[3] { 3 }
        else if a[5] != b[5] { 5 }
        else if a[6] != b[6] { 6 }
        else { 7 };
    lemma_bytes_le_first_difference(a, b, i);
    lemma_digit_order(a1, b1, c1, d1, e1, f1, a2, b2, c2, d2, e2, f2);
}

/// The decimal digits of a number below 10000, as arithmetic.
proof fn lemma_decimal_split(y: int)
    requires
        0 <= y <= 9999,
    ensures
        y == 1000 * (y / 1000) + 100 * (y / 100 % 10) + 10 * (y / 10 % 10) + y % 10,
        y < 100 ==> y == 10 * (y / 10) + y % 10 && y / 10 < 10,
        0 <= y / 1000 <= 9,
        0 <= y / 100 % 10 <= 9,
        0 <= y / 10 % 10 <= 9,
        0 <= y % 10 <= 9,
{
}

/// Comparing numbers written with the same number of digits, digit by digit
/// from the most significant, compares their values.
proof fn lemma_digit_order(
    a1: int, b1: int, c1: int, d1: int, e1: int, f1: int,
    a2: int, b2: int, c2: int, d2: int, e2: int, f2: int,
)
    requires
        0 <= a1 <= 9, 0 <= b1 <= 9, 0 <= c1 <= 9, 0 <= d1 <= 9, 0 <= e1 <= 9, 0 <= f1 <= 9,
        0 <= a2 <= 9, 0 <= b2 <= 9, 0 <= c2 <= 9, 0 <= d2 <= 9, 0 <= e2 <= 9, 0 <= f2 <= 9,
    ensures
        (if a1 != a2 { a1 < a2 }
        else if b1 != b2 { b1 < b2 }
        else if c1 != c2 { c1 < c2 }
        else if d1 != d2 { d1 < d2 }
        else if e1 != e2 { e1 < e2 }
        else { f1 <= f2 })
        <==> ({
            let y1 = 1000 * a1 + 100 * b1 + 10 * c1 + d1;
            let y2 = 1000 * a2 + 100 * b2 + 10 * c2 + d2;
            y1 < y2 || (y1 == y2 && 10 * e1 + f1 <= 10 * e2 + f2)
        }),
{
}

/// Within the years 0 to 9999, the UTC month label of a later time is never
/// smaller, as a string, than that of an earlier time.
pub proof fn lemma_utc_month_label_monotone(s1: int, s2: int)
    requires
        s1 <= s2,
        0 <= year_month_of_day(day_of_secs(s1)).0 <= 9999,
        0 <= year_month_of_day(day_of_secs(s2)).0 <= 9999,
    ensures
        bytes_le(encode_utf8(utc_month_label(s1)), encode_utf8(utc_month_label(s2))),
{
    let d1 = day_of_secs(s1);
    let d2 = day_of_secs(s2);
    assert(d1 <= d2) by (nonlinear_arith)
        requires
            s1 <= s2,
            d1 == s1 / 86400,
            d2 == s2 / 86400,
    {
    }
    lemma_year_month_of_day_monotone(d1, d2);
    lemma_civil_steps(d1);
    lemma_civil_steps(d2);
    let (y1, m1) = year_month_of_day(d1);
    let (y2, m2) = year_month_of_day(d2);
    lemma_month_label_order(y1, m1, y2, m2);
    lemma_month_label_utf8(y1, m1);
    lemma_month_label_utf8(y2, m2);
}

// ── Executable conversion ───────────────────────────────────────────────

/// The UTC (year, month) of Unix time `secs`, by the days-to-civil conversion
/// on 400-year eras.
pub fn utc_year_month(secs: i64) -> (ym: (i64, i64))
    ensures
        is_month_of_day(ym.0 as int, ym.1 as int, day_of_secs(secs as int)),
        (ym.0 as int, ym.1 as int) == year_month_of_day(day_of_secs(secs as int)),
        -300_000_000_000 < ym.0 < 300_000_000_000,
{
    let days: i64 = match secs.checked_div_euclid(86_400) {
        Some(d) => d,
        None => 0,
    };
    let z: i64 = days + 719_468;
    let era: i64 = match z.checked_div_euclid(146_097) {
        Some(e) => e,
        None => 0,
    };
    let doe: i64 = match z.checked_rem_euclid(146_097) {
        Some(r) => r,
        None => 0,
    };
    proof {
        lemma_year_of_era(doe as int);
    }
    let yoe: i64 = (doe - doe / 1460 + doe / 36524 - doe / 146_096) / 365;
    let doy: i64 = doe - (365 * yoe + yoe / 4 - yoe / 100);
    proof {
        lemma_month_of_year(doy as int);
    }
    let mp: i64 = (5 * doy + 2) / 153;
    let m: i64 = if mp < 10 { mp + 3 } else { mp - 9 };
    let y: i64 = yoe + era * 400 + if m <= 2 { 1 } else { 0 };
    proof {
        lemma_civil_steps(days as int);
    }
    (y, m)
}

/// Number of decimal digits of `n`.
fn decimal_len(n: u64) -> (len: u64)
    ensures
        len == decimal_digits(n as nat).len(),
        1 <= len <= n / 10 + 1,
    decreases n,
{
    if n < 10 {
        1
    } else {
        1 + decimal_len(n / 10)
    }
}

/// Appends the decimal digits of `n` to `s`.
fn push_decimal(s: &mut String, n: u64)
    ensures
        final(s)@ == old(s)@ + decimal_digits(n as nat),
    decreases n,
{
    if n < 10 {
        push_char(s, digit(n));
    } else {
        push_decimal(s, n / 10);
        push_char(s, digit(n % 10));
        assert(final(s)@ =~= old(s)@ + decimal_digits(n as nat));
    }
}

/// Appends `n` to `s` as `{:0width$}` writes it.
fn push_zero_padded(s: &mut String, n: i64, width: usize)
    requires
        n > i64::MIN,
    ensures
        final(s)@ == old(s)@ + zero_padded(n as int, width as int),
{
    let magnitude: u64 = if n < 0 { (-n) as u64 } else { n as u64 };
    let sign_len: u64 = if n < 0 { 1 } else { 0 };
    if n < 0 {
        push_char(s, '-');
    }
    let digits_len = decimal_len(magnitude);
    let mut pad: u64 = 0;
    if width as u64 > sign_len + digits_len {
        pad = width as u64 - sign_len - digits_len;
    }
    let ghost before_pad = s@;
    let mut i: u64 = 0;
    while i < pad
        invariant
            i <= pad,
            s@ == before_pad + Seq::new(i as nat, |k: int| '0'),
        decreases pad - i,
    {
        push_char(s, '0');
        i = i + 1;
        assert(s@ =~= before_pad + Seq::new(i as nat, |k: int| '0'));
    }
    push_decimal(s, magnitude);
    let ghost sign: Seq<char> = if n < 0 { seq!['-'] } else { seq![] };
    assert(final(s)@ =~= old(s)@ + zero_padded(n as int, width as int));
}

/// The label `YYYY-MM` of month `m` of year `y`, as `format!("{:04}-{:02}", y, m)` writes it.
pub fn month_label_string(y: i64, m: i64) -> (label: String)
    requires
        y > i64::MIN,
        m > i64::MIN,
    ensures
        label@ == month_label(y as int, m as int),
{
    let mut label = String::new();
    push_zero_padded(&mut label, y, 4);
    push_char(&mut label, '-');
    push_zero_padded(&mut label, m, 2);
    assert(label@ =~= month_label(y as int, m as int));
    label
}

/// Unix seconds to the UTC month label `YYYY-MM`.
pub fn utc_month(secs: i64) -> (label: String)
    ensures
        label@ == utc_month_label(secs as int),
{
    let (y, m) = utc_year_month(secs);
    month_label_string(y, m)
}

} // verus!
