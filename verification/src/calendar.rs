//! Gregorian calendar helpers over days since 1970-01-01.

use vstd::prelude::*;
use crate::clock::unix_now_secs;
use crate::text::{lemma_digits_shape, lemma_parse_digits, lemma_parse_two_wide, lemma_split_concat, lemma_split_no_sep, spec_digits, chars_of, parse_u64, push_fmt_int, spec_fmt_int, spec_parse_u64, spec_split, split_chars, string_from_chars};

verus! {

/// Gregorian leap-year rule.
pub open spec fn spec_is_leap(y: int) -> bool {
    (y % 4 == 0 && y % 100 != 0) || y % 400 == 0
}

/// Number of days in year `y`.
pub open spec fn year_len(y: int) -> int {
    if spec_is_leap(y) { 366 } else { 365 }
}

/// Number of days in month `m` (0 = January .. 11 = December) of year `y`.
pub open spec fn month_len(y: int, m: int) -> int {
    if m == 1 {
        if spec_is_leap(y) { 29 } else { 28 }
    } else if m == 3 || m == 5 || m == 8 || m == 10 {
        30
    } else {
        31
    }
}

/// Walks whole years forward from year `y`: the year holding day offset `n` and the offset inside it.
pub open spec fn civil_year(n: int, y: int) -> (int, int)
    decreases n,
{
    if n < year_len(y) || n < 0 {
        (y, n)
    } else {
        civil_year(n - year_len(y), y + 1)
    }
}

/// Walks the months of year `y` from month `i`: the month holding day offset `r` and the
/// offset inside it; when the offset outlasts December the month is January with what is left.
pub open spec fn month_split(y: int, r: int, i: int) -> (int, int)
    decreases 12 - i,
{
    if i >= 12 || i < 0 {
        (0, r)
    } else if r < month_len(y, i) {
        (i, r)
    } else {
        month_split(y, r - month_len(y, i), i + 1)
    }
}

/// `YYYY-MM-DD` text of year `y`, zero-based month `m` and zero-based day `d`.
pub open spec fn spec_ymd_text(y: int, m: int, d: int) -> Seq<char> {
    spec_fmt_int(y, 4) + seq!['-'] + spec_fmt_int(m + 1, 2) + seq!['-'] + spec_fmt_int(d + 1, 2)
}

/// The day count as a signed 64-bit value (two's complement reinterpretation).
pub open spec fn as_signed_days(days: nat) -> int {
    if days <= i64::MAX { days as int } else { days - 0x1_0000_0000_0000_0000 }
}

/// Calendar date of `days` since 1970-01-01, as `YYYY-MM-DD`.
pub open spec fn spec_epoch_days_to_date(days: nat) -> Seq<char> {
    let (y, r) = civil_year(as_signed_days(days), 1970);
    let (m, d) = month_split(y, r, 0);
    spec_ymd_text(y, m, d)
}

/// Whether `y` is a Gregorian leap year.
pub fn is_leap(y: i64) -> (r: bool)
    ensures
        r == spec_is_leap(y as int),
{
    (y % 4 == 0 && y % 100 != 0) || y % 400 == 0
}

fn days_in_year(y: i64) -> (n: i64)
    ensures
        n == year_len(y as int),
{
    if is_leap(y) { 366 } else { 365 }
}

fn days_in_month(y: i64, m: i64) -> (n: i64)
    ensures
        n == month_len(y as int, m as int),
{
    if m == 1 {
        if is_leap(y) { 29 } else { 28 }
    } else if m == 3 || m == 5 || m == 8 || m == 10 {
        30
    } else {
        31
    }
}

/// Converts a count of days since 1970-01-01 into a `YYYY-MM-DD` date.
pub fn epoch_days_to_date(days: u64) -> (s: String)
    ensures
        s@ == spec_epoch_days_to_date(days as nat),
{
    let ghost r0 = as_signed_days(days as nat);
    let mut y: i64 = 1970;
    let mut remaining: i64 = if days <= 9223372036854775807 {
        days as i64
    } else {
        ((days - 9223372036854775808) as i64) + (-9223372036854775807 - 1)
    };
    assert(remaining == r0);
    let mut len = days_in_year(y);
    while remaining >= len
        invariant
            civil_year(remaining as int, y as int) == civil_year(r0, 1970),
            len == year_len(y as int),
            1970 <= y,
            (y - 1970) * 365 <= r0 - remaining,
            r0 <= i64::MAX,
        decreases remaining,
    {
        remaining = remaining - len;
        y = y + 1;
        len = days_in_year(y);
    }
    assert(civil_year(remaining as int, y as int) == (y as int, remaining as int));
    let mut i: i64 = 0;
    let ghost r = remaining as int;
    let mut dim = days_in_month(y, 0);
    while i < 12 && remaining >= dim
        invariant
            0 <= i <= 12,
            i < 12 ==> dim == month_len(y as int, i as int),
            month_split(y as int, remaining as int, i as int) == month_split(y as int, r, 0),
            remaining < 366,
        decreases 12 - i,
    {
        remaining = remaining - dim;
        i = i + 1;
        if i < 12 {
            dim = days_in_month(y, i);
        }
    }
    let m: i64 = if i < 12 { i } else { 0 };
    assert(month_split(y as int, r, 0) == (m as int, remaining as int));
    let mut out: Vec<char> = Vec::new();
    push_fmt_int(&mut out, y, 4);
    out.push('-');
    push_fmt_int(&mut out, m + 1, 2);
    out.push('-');
    push_fmt_int(&mut out, remaining + 1, 2);
    assert(out@ == spec_ymd_text(y as int, m as int, remaining as int));
    string_from_chars(&out)
}


/// Days from 1970-01-01 to January 1st of year `y` (zero for years before 1970).
pub open spec fn days_before_year(y: int) -> int
    decreases y - 1970,
{
    if y <= 1970 {
        0
    } else {
        days_before_year(y - 1) + year_len(y - 1)
    }
}

/// Days in the first `k` months of year `y`.
pub open spec fn days_before_month(y: int, k: int) -> int
    decreases k,
{
    if k <= 0 {
        0
    } else {
        days_before_month(y, k - 1) + month_len(y, k - 1)
    }
}

/// Days since 1970-01-01 of year `y`, month `m` (1-based) and day `d` (1-based).
pub open spec fn ymd_days(y: int, m: int, d: int) -> int {
    days_before_year(y) + days_before_month(y, m - 1) + d - 1
}

/// The numbers among the `-`-separated pieces of `date` that parse, in order.
pub open spec fn parsed_numbers(parts: Seq<Seq<char>>) -> Seq<u64>
    decreases parts.len(),
{
    if parts.len() == 0 {
        Seq::empty()
    } else {
        let init = parsed_numbers(parts.drop_last());
        match spec_parse_u64(parts.last()) {
            Some(v) => init.push(v),
            None => init,
        }
    }
}

/// The numbers read out of a `YYYY-MM-DD` style text.
pub open spec fn date_numbers(date: Seq<char>) -> Seq<u64> {
    parsed_numbers(spec_split(date, '-'))
}

/// Texts on which the date arithmetic stays in range: when three numbers are read, the month is
/// between 1 and 13, the day is at least 1, and the day count fits in 64 bits.
pub open spec fn date_in_range(date: Seq<char>) -> bool {
    let p = date_numbers(date);
    p.len() == 3 ==> {
        &&& 1 <= p[1] <= 13
        &&& 1 <= p[2]
        &&& ymd_days(p[0] as int, p[1] as int, p[2] as int) <= u64::MAX
    }
}

/// Result of subtracting `k` days from the date written in `date`.
pub open spec fn spec_date_minus_days(date: Seq<char>, k: nat) -> Seq<char> {
    let p = date_numbers(date);
    if p.len() != 3 {
        date
    } else {
        let n = ymd_days(p[0] as int, p[1] as int, p[2] as int);
        spec_epoch_days_to_date(if n >= k { (n - k) as nat } else { 0 })
    }
}

/// The date (UTC) of an instant given as seconds since the Unix epoch.
pub open spec fn spec_date_of_unix_secs(secs: u64) -> Seq<char> {
    spec_epoch_days_to_date((secs / 86400) as nat)
}

/// The date shown for a wall-clock reading: a clock that reads before 1970 counts as the epoch.
pub open spec fn spec_date_of_clock(reading: Option<u64>) -> Seq<char> {
    match reading {
        Some(secs) => spec_date_of_unix_secs(secs),
        None => spec_date_of_unix_secs(0),
    }
}

/// The `YYYY-MM-DD` date (UTC) of the instant `secs` seconds after 1970-01-01 00:00:00.
pub fn date_of_unix_secs(secs: u64) -> (s: String)
    ensures
        s@ == spec_date_of_unix_secs(secs),
{
    epoch_days_to_date(secs / 86400)
}

/// The date shown for a wall-clock reading in seconds since the Unix epoch; `None` (a clock
/// before 1970) reads as 1970-01-01.
pub fn date_of_clock(reading: Option<u64>) -> (s: String)
    ensures
        s@ == spec_date_of_clock(reading),
{
    match reading {
        Some(secs) => date_of_unix_secs(secs),
        None => date_of_unix_secs(0),
    }
}

/// Today's date (UTC) as `YYYY-MM-DD`, from the wall clock (a clock before 1970 reads as
/// 1970-01-01).
pub fn chrono_date_now() -> (s: String)
    ensures
        exists|reading: Option<u64>| s@ == #[trigger] spec_date_of_clock(reading),
{
    let reading = unix_now_secs();
    let s = date_of_clock(reading);
    assert(s@ == spec_date_of_clock(reading));
    s
}

/// Months have their Gregorian lengths: 31 days in January, March, May, July, August, October
/// and December, 30 in April, June, September and November, and 29 in February of a year
/// divisible by 4 but not by 100 or divisible by 400, otherwise 28 (months counted from 0).
pub proof fn law_month_lengths(y: int, m: int)
    requires
        0 <= m < 12,
    ensures
        (m == 0 || m == 2 || m == 4 || m == 6 || m == 7 || m == 9 || m == 11) ==> month_len(y, m) == 31,
        (m == 3 || m == 5 || m == 8 || m == 10) ==> month_len(y, m) == 30,
        m == 1 && ((y % 4 == 0 && y % 100 != 0) || y % 400 == 0) ==> month_len(y, m) == 29,
        m == 1 && !((y % 4 == 0 && y % 100 != 0) || y % 400 == 0) ==> month_len(y, m) == 28,
        year_len(y) == 365 + (if (y % 4 == 0 && y % 100 != 0) || y % 400 == 0 { 1int } else { 0int }),
{
}

/// Every year before 1970 + k contributes at least 365 days.
pub proof fn lemma_days_before_year_bounds(y: int)
    ensures
        days_before_year(y) >= 0,
        y >= 1970 ==> days_before_year(y) >= 365 * (y - 1970),
    decreases y - 1970,
{
    if y > 1970 {
        lemma_days_before_year_bounds(y - 1);
    }
}

proof fn lemma_days_before_year_mono(a: int, b: int)
    requires
        a <= b,
    ensures
        days_before_year(a) <= days_before_year(b),
    decreases b - a,
{
    if a < b {
        lemma_days_before_year_mono(a, b - 1);
    }
}

proof fn lemma_days_before_month_mono(y: int, a: int, b: int)
    requires
        a <= b,
    ensures
        days_before_month(y, a) <= days_before_month(y, b),
    decreases b - a,
{
    if a < b {
        lemma_days_before_month_mono(y, a, b - 1);
    }
}

fn parsed_numbers_exec(parts: &Vec<Vec<char>>) -> (r: Vec<u64>)
    ensures
        r@ == parsed_numbers(parts@.map_values(|p: Vec<char>| p@)),
{
    let ghost pv = parts@.map_values(|p: Vec<char>| p@);
    let mut r: Vec<u64> = Vec::new();
    for i in 0..parts.len()
        invariant
            pv == parts@.map_values(|p: Vec<char>| p@),
            r@ == parsed_numbers(pv.take(i as int)),
    {
        assert(pv.take(i + 1).drop_last() == pv.take(i as int));
        assert(pv.take(i + 1).last() == parts@[i as int]@);
        match parse_u64(&parts[i]) {
            Some(v) => r.push(v),
            None => {},
        }
    }
    assert(pv.take(parts.len() as int) == pv);
    r
}

/// The date `days` days before the `YYYY-MM-DD` date in `date`; a text that does not hold
/// exactly three numbers between its dashes is returned unchanged.
pub fn date_minus_days(date: &str, days: u32) -> (s: String)
    requires
        date_in_range(date@),
    ensures
        s@ == spec_date_minus_days(date@, days as nat),
{
    let chars = chars_of(date);
    let pieces = split_chars(&chars, '-');
    let parts = parsed_numbers_exec(&pieces);
    if parts.len() != 3 {
        return date.to_owned();
    }
    let y = parts[0];
    let m = parts[1];
    let d = parts[2];
    let ghost total = ymd_days(y as int, m as int, d as int);
    proof {
        lemma_days_before_year_bounds(y as int);
        lemma_days_before_month_mono(y as int, 0, m - 1);
        assert(days_before_month(y as int, 0) == 0);
    }
    let mut epoch_days: u64 = 0;
    let mut yr: u64 = 1970;
    while yr < y
        invariant
            1970 <= yr,
            yr <= y || y < 1970,
            y < 1970 ==> yr == 1970,
            epoch_days == days_before_year(yr as int),
            days_before_year(y as int) + days_before_month(y as int, m - 1) + d - 1 <= u64::MAX,
            days_before_month(y as int, m - 1) >= 0,
            y >= 1970 ==> days_before_year(y as int) >= 365 * (y - 1970),
            1 <= d,
        decreases y - yr,
    {
        proof {
            lemma_days_before_year_mono(yr + 1, y as int);
        }
        let len: u64 = if is_leap(yr as i64) { 366 } else { 365 };
        epoch_days = epoch_days + len;
        yr = yr + 1;
    }
    assert(epoch_days == days_before_year(y as int)) by {
        if y < 1970 {
            assert(days_before_year(y as int) == 0);
            assert(days_before_year(1970) == 0);
        }
    }
    let yl = y as i64;
    let mut i: u64 = 0;
    while i < m - 1
        invariant
            0 <= i <= m - 1,
            m - 1 <= 12,
            yl == y,
            epoch_days == days_before_year(y as int) + days_before_month(y as int, i as int),
            days_before_year(y as int) + days_before_month(y as int, m - 1) + d - 1 <= u64::MAX,
            1 <= d,
        decreases m - 1 - i,
    {
        proof {
            lemma_days_before_month_mono(y as int, i + 1, m - 1);
        }
        let dim = days_in_month(yl, i as i64) as u64;
        epoch_days = epoch_days + dim;
        i = i + 1;
    }
    epoch_days = epoch_days + (d - 1);
    assert(epoch_days == total);
    let back = epoch_days.saturating_sub(days as u64);
    epoch_days_to_date(back)
}


proof fn lemma_civil_year(n: int, y: int)
    requires
        n >= 0,
        y >= 1970,
    ensures
        ({
            let (yy, r) = civil_year(n, y);
            &&& yy >= y
            &&& 0 <= r < year_len(yy)
            &&& days_before_year(yy) + r == days_before_year(y) + n
        }),
    decreases n,
{
    if n >= year_len(y) {
        lemma_civil_year(n - year_len(y), y + 1);
    }
}

proof fn lemma_months_fill_year(y: int)
    ensures
        days_before_month(y, 12) == year_len(y),
{
    reveal_with_fuel(days_before_month, 13);
}

proof fn lemma_month_split(y: int, r: int, i: int)
    requires
        0 <= i <= 11,
        0 <= r,
        days_before_month(y, i) + r < year_len(y),
    ensures
        ({
            let (m, d) = month_split(y, r, i);
            &&& i <= m <= 11
            &&& 0 <= d < month_len(y, m)
            &&& days_before_month(y, m) + d == days_before_month(y, i) + r
        }),
    decreases 12 - i,
{
    if r >= month_len(y, i) {
        lemma_months_fill_year(y);
        if i == 11 {
            assert(days_before_month(y, 12) == days_before_month(y, 11) + month_len(y, 11));
        } else {
            lemma_month_split(y, r - month_len(y, i), i + 1);
        }
    }
}

proof fn lemma_text_pieces(y: int, m: int, d: int)
    requires
        y >= 1970,
        0 <= m <= 11,
        0 <= d <= 30,
    ensures
        y <= u64::MAX ==> parsed_numbers(spec_split(spec_ymd_text(y, m, d), '-'))
            == seq![y as u64, (m + 1) as u64, (d + 1) as u64],
{
    if y <= u64::MAX {
        let a = spec_fmt_int(y, 4);
        let b = spec_fmt_int(m + 1, 2);
        let c = spec_fmt_int(d + 1, 2);
        lemma_digits_shape(y as nat);
        assert(a == spec_digits(y as nat));
        lemma_parse_digits(y as u64);
        lemma_parse_two_wide((m + 1) as u64);
        lemma_parse_two_wide((d + 1) as u64);
        let t = spec_ymd_text(y, m, d);
        assert(t == a + seq!['-'] + (b + seq!['-'] + c));
        lemma_split_concat(a, b + seq!['-'] + c, '-');
        lemma_split_concat(b, c, '-');
        lemma_split_no_sep(a, '-');
        lemma_split_no_sep(b, '-');
        lemma_split_no_sep(c, '-');
        let parts = spec_split(t, '-');
        assert(parts == seq![a, b, c]);
        assert(parts.drop_last() == seq![a, b]);
        assert(seq![a, b].drop_last() == seq![a]);
        assert(seq![a].drop_last() == Seq::<Seq<char>>::empty());
        assert(((y as u64) as nat) == y as nat);
        assert(spec_parse_u64(a) == Some(y as u64));
        assert(spec_parse_u64(b) == Some((m + 1) as u64));
        assert(spec_parse_u64(c) == Some((d + 1) as u64));
        assert(parsed_numbers(Seq::<Seq<char>>::empty()) == Seq::<u64>::empty());
        assert(seq![a].last() == a);
        assert(parsed_numbers(seq![a]) == Seq::<u64>::empty().push(y as u64));
        assert(parsed_numbers(seq![a]) == seq![y as u64]);
        assert(parsed_numbers(seq![a, b]) == seq![y as u64, (m + 1) as u64]);
        assert(parsed_numbers(seq![a, b, c]) == seq![y as u64, (m + 1) as u64, (d + 1) as u64]);
    }
}

/// Reading back a printed date and stepping back `k` days gives the date `k` days earlier
/// (never before 1970-01-01): `date_minus_days(epoch_days_to_date(n), k)` is
/// `epoch_days_to_date(n - k)`, and such a text is always within range.
pub proof fn law_date_minus_days_of_printed_date(n: nat, k: nat)
    requires
        n <= i64::MAX,
    ensures
        date_in_range(spec_epoch_days_to_date(n)),
        spec_date_minus_days(spec_epoch_days_to_date(n), k)
            == spec_epoch_days_to_date(if n >= k { (n - k) as nat } else { 0 }),
{
    lemma_civil_year(n as int, 1970);
    assert(days_before_year(1970) == 0);
    let (y, r) = civil_year(n as int, 1970);
    lemma_month_split(y, r, 0);
    assert(days_before_month(y, 0) == 0);
    let (m, d) = month_split(y, r, 0);
    lemma_days_before_year_bounds(y);
    assert(month_len(y, m) <= 31);
    lemma_text_pieces(y, m, d);
    let t = spec_epoch_days_to_date(n);
    assert(t == spec_ymd_text(y, m, d));
    assert(date_numbers(t) == seq![y as u64, (m + 1) as u64, (d + 1) as u64]);
    assert(ymd_days(y, m + 1, d + 1) == n);
}

/// A printed date is a real Gregorian date that names the day it was printed for: its month is
/// 1 to 12, its day is at least 1 and at most 30 in April, June, September and November, at most
/// 29 in February of a leap year and 28 in other Februaries, at most 31 otherwise; and the day
/// count of that year, month and day is `n` again.
pub proof fn law_printed_date_fields(n: nat)
    requires
        n <= i64::MAX,
    ensures
        ({
            let p = date_numbers(spec_epoch_days_to_date(n));
            let leap = (p[0] % 4 == 0 && p[0] % 100 != 0) || p[0] % 400 == 0;
            &&& p.len() == 3
            &&& p[0] >= 1970
            &&& 1 <= p[1] <= 12
            &&& 1 <= p[2] <= 31
            &&& (p[1] == 4 || p[1] == 6 || p[1] == 9 || p[1] == 11) ==> p[2] <= 30
            &&& p[1] == 2 && leap ==> p[2] <= 29
            &&& p[1] == 2 && !leap ==> p[2] <= 28
            &&& ymd_days(p[0] as int, p[1] as int, p[2] as int) == n
        }),
{
    lemma_civil_year(n as int, 1970);
    assert(days_before_year(1970) == 0);
    let (y, r) = civil_year(n as int, 1970);
    lemma_month_split(y, r, 0);
    assert(days_before_month(y, 0) == 0);
    let (m, d) = month_split(y, r, 0);
    lemma_days_before_year_bounds(y);
    assert(month_len(y, m) <= 31);
    lemma_text_pieces(y, m, d);
    let t = spec_epoch_days_to_date(n);
    assert(t == spec_ymd_text(y, m, d));
    assert(date_numbers(t) == seq![y as u64, (m + 1) as u64, (d + 1) as u64]);
    assert(ymd_days(y, m + 1, d + 1) == n);
}

} // verus!
