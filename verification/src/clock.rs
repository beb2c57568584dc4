//! Calendar time at the pipeline's edge: a `YYYY-MM-DD HH:MM:SS` text (UTC,
//! proleptic Gregorian, fixed width) is turned into nanoseconds since the
//! epoch for the run's time window. Years 1970 through 2261 are accepted, so
//! the result always fits its type.

use vstd::prelude::*;

verus! {

/// Whether a year has a leap day.
pub open spec fn is_leap(y: int) -> bool {
    y % 4 == 0 && (y % 100 != 0 || y % 400 == 0)
}

/// The days of month `m` (1-based) in year `y`.
pub open spec fn days_in_month(y: int, m: int) -> int {
    if m == 2 {
        if is_leap(y) {
            29
        } else {
            28
        }
    } else if m == 4 || m == 6 || m == 9 || m == 11 {
        30
    } else {
        31
    }
}

/// The days of all years from 1970 up to (excluding) `y`.
pub open spec fn days_before_year(y: int) -> int
    decreases y - 1970 when y >= 1970
{
    if y <= 1970 {
        0
    } else {
        days_before_year(y - 1) + if is_leap(y - 1) {
            366int
        } else {
            365int
        }
    }
}

/// The days of all months of year `y` before month `m` (1-based).
pub open spec fn days_before_month(y: int, m: int) -> int
    decreases m when m >= 1
{
    if m <= 1 {
        0
    } else {
        days_before_month(y, m - 1) + days_in_month(y, m - 1)
    }
}

/// The days from the epoch to the given date.
pub open spec fn days_from_epoch(y: int, m: int, d: int) -> int {
    days_before_year(y) + days_before_month(y, m) + (d - 1)
}

/// Whether the six calendar parts name a valid instant in the accepted range.
pub open spec fn datetime_valid(y: int, m: int, d: int, h: int, mi: int, s: int) -> bool {
    &&& 1970 <= y <= 2261
    &&& 1 <= m <= 12
    &&& 1 <= d <= days_in_month(y, m)
    &&& 0 <= h <= 23
    &&& 0 <= mi <= 59
    &&& 0 <= s <= 59
}

/// The nanoseconds since the epoch of a valid instant.
pub open spec fn datetime_nanos(y: int, m: int, d: int, h: int, mi: int, s: int) -> int {
    (days_from_epoch(y, m, d) * 86400 + h * 3600 + mi * 60 + s) * 1_000_000_000
}

/// An ASCII decimal digit.
pub open spec fn is_digit(b: u8) -> bool {
    0x30 <= b <= 0x39
}

/// The decimal value of digits `s[i .. j]`.
pub open spec fn digits_val(s: Seq<u8>, i: int, j: int) -> int
    decreases j - i when i <= j
{
    if j <= i {
        0
    } else {
        digits_val(s, i, j - 1) * 10 + (s[j - 1] - 0x30)
    }
}

/// The text's shape: exactly `YYYY-MM-DD HH:MM:SS`, nineteen bytes with
/// digits and separators at fixed positions.
pub open spec fn layout_ok(s: Seq<u8>) -> bool {
    &&& s.len() == 19
    &&& forall|k: int|
        (0 <= k < 4 || 5 <= k < 7 || 8 <= k < 10 || 11 <= k < 13 || 14 <= k < 16 || 17 <= k
            < 19) ==> is_digit(#[trigger] s[k])
    &&& s[4] == 0x2du8
    &&& s[7] == 0x2du8
    &&& s[10] == 0x20u8
    &&& s[13] == 0x3au8
    &&& s[16] == 0x3au8
}

/// The instant a well-shaped, valid text names, in nanoseconds since the
/// epoch; `None` for any other text.
pub open spec fn parse_datetime(s: Seq<u8>) -> Option<u64> {
    if layout_ok(s) {
        let y = digits_val(s, 0, 4);
        let m = digits_val(s, 5, 7);
        let d = digits_val(s, 8, 10);
        let h = digits_val(s, 11, 13);
        let mi = digits_val(s, 14, 16);
        let sec = digits_val(s, 17, 19);
        if datetime_valid(y, m, d, h, mi, sec) {
            Some(datetime_nanos(y, m, d, h, mi, sec) as u64)
        } else {
            None
        }
    } else {
        None
    }
}

/// Ten to the `n`-th power.
pub open spec fn pow10(n: int) -> int
    decreases n when n >= 0
{
    if n <= 0 {
        1
    } else {
        10 * pow10(n - 1)
    }
}

/// Reads the fixed-width digit run `s[i .. j]`.
fn read_digits(s: &Vec<u8>, i: usize, j: usize) -> (r: Option<u64>)
    requires
        i <= j <= s.len(),
        j - i <= 4,
    ensures
        r matches Some(v) ==> {
            &&& forall|k: int| i <= k < j ==> is_digit(#[trigger] s@[k])
            &&& v == digits_val(s@, i as int, j as int)
            &&& v <= 9999
        },
        r is None ==> exists|k: int| i <= k < j && !is_digit(#[trigger] s@[k]),
{
    let mut v: u64 = 0;
    let mut k: usize = i;
    proof {
        assert(pow10(0) == 1);
        assert(pow10(1) == 10);
        assert(pow10(2) == 100);
        assert(pow10(3) == 1000);
        assert(pow10(4) == 10000);
    }
    while k < j
        invariant
            i <= k <= j <= s@.len(),
            j - i <= 4,
            forall|q: int| i <= q < k ==> is_digit(#[trigger] s@[q]),
            v == digits_val(s@, i as int, k as int),
            v < pow10(k - i),
            pow10(j - i) <= 10000,
        decreases j - k,
    {
        let b = s[k];
        if b < 0x30 || b > 0x39 {
            return None;
        }
        proof {
            assert(digits_val(s@, i as int, k + 1) == digits_val(s@, i as int, k as int) * 10 + (
            s@[k as int] - 0x30));
            assert(pow10(k - i + 1) == 10 * pow10(k - i));
            assert(pow10(k - i) <= pow10(j - i)) by {
                lemma_pow10_mono(k - i, j - i);
            }
            assert(pow10(k + 1 - i) <= pow10(j - i)) by {
                lemma_pow10_mono(k + 1 - i, j - i);
            }
        }
        v = v * 10 + (b - 0x30) as u64;
        k = k + 1;
    }
    proof {
        lemma_pow10_mono(j - i, j - i);
    }
    Some(v)
}

/// Powers of ten do not shrink as the exponent grows.
proof fn lemma_pow10_mono(a: int, b: int)
    requires
        0 <= a <= b,
    ensures
        pow10(a) <= pow10(b),
        pow10(a) >= 1,
    decreases b,
{
    if b > 0 {
        if a == b {
            lemma_pow10_mono(a - 1 + 1 - 1, b - 1);
        } else {
            lemma_pow10_mono(a, b - 1);
        }
    }
}

/// The days of all years from 1970 up to (excluding) `y`.
fn days_before_year_exec(y: u64) -> (r: u64)
    requires
        1970 <= y <= 2261,
    ensures
        r == days_before_year(y as int),
        r <= 200_000,
{
    let mut acc: u64 = 0;
    let mut cy: u64 = 1970;
    while cy < y
        invariant
            1970 <= cy <= y <= 2261,
            acc == days_before_year(cy as int),
            acc <= 366 * (cy - 1970),
        decreases y - cy,
    {
        let leap = cy % 4 == 0 && (cy % 100 != 0 || cy % 400 == 0);
        acc = acc + if leap {
            366
        } else {
            365
        };
        cy = cy + 1;
    }
    acc
}

/// The days of month `m` (1-based) in year `y`.
fn days_in_month_exec(y: u64, m: u64) -> (r: u64)
    requires
        1 <= m <= 12,
    ensures
        r == days_in_month(y as int, m as int),
        28 <= r <= 31,
{
    if m == 2 {
        if y % 4 == 0 && (y % 100 != 0 || y % 400 == 0) {
            29
        } else {
            28
        }
    } else if m == 4 || m == 6 || m == 9 || m == 11 {
        30
    } else {
        31
    }
}

/// The days of all months of year `y` before month `m`.
fn days_before_month_exec(y: u64, m: u64) -> (r: u64)
    requires
        1 <= m <= 12,
    ensures
        r == days_before_month(y as int, m as int),
        r <= 366,
{
    let mut acc: u64 = 0;
    let mut cm: u64 = 1;
    while cm < m
        invariant
            1 <= cm <= m <= 12,
            acc == days_before_month(y as int, cm as int),
            acc <= 31 * (cm - 1),
        decreases m - cm,
    {
        acc = acc + days_in_month_exec(y, cm);
        cm = cm + 1;
    }
    acc
}

/// Parses a fixed-width `YYYY-MM-DD HH:MM:SS` text (as its bytes) into
/// nanoseconds since the epoch, UTC. Returns `None` exactly on texts that
/// are not of that shape or do not name a valid instant of 1970–2261.
pub fn parse_datetime_nanos(s: &Vec<u8>) -> (r: Option<u64>)
    ensures
        r == parse_datetime(s@),
{
    if s.len() != 19 {
        return None;
    }
    if !(s[4] == 0x2d && s[7] == 0x2d && s[10] == 0x20 && s[13] == 0x3a && s[16] == 0x3a) {
        return None;
    }
    let y = match read_digits(s, 0, 4) {
        Some(v) => v,
        None => {
            return None;
        },
    };
    let m = match read_digits(s, 5, 7) {
        Some(v) => v,
        None => {
            return None;
        },
    };
    let d = match read_digits(s, 8, 10) {
        Some(v) => v,
        None => {
            return None;
        },
    };
    let h = match read_digits(s, 11, 13) {
        Some(v) => v,
        None => {
            return None;
        },
    };
    let mi = match read_digits(s, 14, 16) {
        Some(v) => v,
        None => {
            return None;
        },
    };
    let sec = match read_digits(s, 17, 19) {
        Some(v) => v,
        None => {
            return None;
        },
    };
    proof {
        assert(layout_ok(s@));
    }
    if !(1970 <= y && y <= 2261 && 1 <= m && m <= 12) {
        return None;
    }
    let dim = days_in_month_exec(y, m);
    if !(1 <= d && d <= dim && h <= 23 && mi <= 59 && sec <= 59) {
        return None;
    }
    let days = days_before_year_exec(y) + days_before_month_exec(y, m) + (d - 1);
    let secs = days * 86400 + h * 3600 + mi * 60 + sec;
    Some(secs * 1_000_000_000)
}

} // verus!
