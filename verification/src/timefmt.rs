//! ISO-8601 timestamps: the UTC text the app stamps its records with, and
//! the parsers that read such text back into seconds since the Unix epoch.
//!
//! Parsing works on the UTF-8 bytes of the text, as the byte positions of
//! the original text decide where it is cut.
use vstd::prelude::*;

use crate::text::{dec, pad_zeros, push_chars, push_str, string_from_chars, u64_dec, zero_pad};

verus! {

/// The UTF-8 bytes of a string.
pub open spec fn bytes_of(s: &str) -> Seq<u8> {
    <str as vstd::string::StringSliceAdditionalSpecFns>::spec_bytes(s)
}

// ---------------------------------------------------------------------------
// Digits
// ---------------------------------------------------------------------------

pub open spec fn is_digit_byte(c: u8) -> bool {
    48 <= c <= 57
}

pub open spec fn all_digit_bytes(d: Seq<u8>) -> bool {
    forall|i: int| 0 <= i < d.len() ==> is_digit_byte(#[trigger] d[i])
}

/// The decimal value of a run of digit bytes.
pub open spec fn digits_value(d: Seq<u8>) -> nat
    decreases d.len(),
{
    if d.len() == 0 {
        0
    } else {
        digits_value(d.drop_last()) * 10 + (d.last() - 48) as nat
    }
}

/// `u64::from_str`: an optional `+`, then one or more ASCII digits, the
/// value in range.
pub open spec fn parse_u64_spec(b: Seq<u8>) -> Option<u64> {
    let d = if b.len() > 0 && b[0] == 43 {
        b.skip(1)
    } else {
        b
    };
    if d.len() > 0 && all_digit_bytes(d) && digits_value(d) <= u64::MAX {
        Some(digits_value(d) as u64)
    } else {
        None
    }
}

/// `i64::from_str`: an optional `+` or `-`, then one or more ASCII digits,
/// the value in range.
pub open spec fn parse_i64_spec(b: Seq<u8>) -> Option<i64> {
    if b.len() > 0 && b[0] == 45 {
        let d = b.skip(1);
        if d.len() > 0 && all_digit_bytes(d) && digits_value(d) <= 0x8000_0000_0000_0000 {
            Some((-(digits_value(d) as int)) as i64)
        } else {
            None
        }
    } else {
        let d = if b.len() > 0 && b[0] == 43 {
            b.skip(1)
        } else {
            b
        };
        if d.len() > 0 && all_digit_bytes(d) && digits_value(d) <= i64::MAX {
            Some(digits_value(d) as i64)
        } else {
            None
        }
    }
}

proof fn lemma_digits_take(d: Seq<u8>, k: int)
    requires
        0 <= k < d.len(),
    ensures
        digits_value(d.take(k + 1)) == digits_value(d.take(k)) * 10 + (d[k] - 48) as nat,
{
    assert(d.take(k + 1).drop_last() =~= d.take(k));
    assert(d.take(k + 1).last() == d[k]);
}

proof fn lemma_digits_mono(d: Seq<u8>, k: int)
    requires
        0 <= k <= d.len(),
        all_digit_bytes(d),
    ensures
        digits_value(d.take(k)) <= digits_value(d),
    decreases d.len() - k,
{
    if k < d.len() {
        lemma_digits_take(d, k);
        lemma_digits_mono(d, k + 1);
    } else {
        assert(d.take(k) =~= d);
    }
}

/// The value of the digit run `b[lo..hi]`, when it is all digits and fits.
pub(crate) fn digit_run(b: &[u8], lo: usize, hi: usize) -> (r: Option<u64>)
    requires
        lo <= hi <= b@.len(),
    ensures
        r == (if all_digit_bytes(b@.subrange(lo as int, hi as int)) && digits_value(
            b@.subrange(lo as int, hi as int),
        ) <= u64::MAX {
            Some(digits_value(b@.subrange(lo as int, hi as int)) as u64)
        } else {
            None
        }),
{
    let ghost d = b@.subrange(lo as int, hi as int);
    let mut v: u64 = 0;
    let mut i: usize = lo;
    assert(d.take(0) =~= Seq::<u8>::empty());
    while i < hi
        invariant
            lo <= i <= hi <= b@.len(),
            d == b@.subrange(lo as int, hi as int),
            all_digit_bytes(d.take(i - lo)),
            v == digits_value(d.take(i - lo)),
        decreases hi - i,
    {
        proof {
            lemma_digits_take(d, i - lo);
        }
        let c = b[i];
        if c < 48 || c > 57 {
            assert(!is_digit_byte(d[i - lo]));
            return None;
        }
        let v2 = match v.checked_mul(10) {
            Some(x) => x.checked_add((c - 48) as u64),
            None => None,
        };
        match v2 {
            Some(x) => {
                v = x;
            },
            None => {
                proof {
                    let k = (i - lo) as int;
                    if all_digit_bytes(d) {
                        lemma_digits_mono(d, k + 1);
                    }
                }
                return None;
            },
        }
        i = i + 1;
        assert(all_digit_bytes(d.take(i - lo))) by {
            assert forall|j: int| 0 <= j < d.take(i - lo).len() implies is_digit_byte(#[trigger] d.take(i - lo)[j]) by {
                if j < i - lo - 1 {
                    assert(d.take(i - lo)[j] == d.take(i - lo - 1)[j]);
                }
            }
        }
    }
    assert(d.take(hi - lo) =~= d);
    Some(v)
}

/// `u64::from_str` over the bytes `b[lo..hi]`.
fn parse_u64_bytes(b: &[u8], lo: usize, hi: usize) -> (r: Option<u64>)
    requires
        lo <= hi <= b@.len(),
    ensures
        r == parse_u64_spec(b@.subrange(lo as int, hi as int)),
{
    let ghost s = b@.subrange(lo as int, hi as int);
    if lo < hi && b[lo] == 43 {
        assert(s.skip(1) =~= b@.subrange(lo + 1, hi as int));
        let r = digit_run(b, lo + 1, hi);
        if lo + 1 == hi {
            return None;
        }
        r
    } else {
        let r = digit_run(b, lo, hi);
        if lo == hi {
            return None;
        }
        r
    }
}

/// `i64::from_str` over the bytes `b[lo..hi]`.
pub(crate) fn parse_i64_bytes(b: &[u8], lo: usize, hi: usize) -> (r: Option<i64>)
    requires
        lo <= hi <= b@.len(),
    ensures
        r == parse_i64_spec(b@.subrange(lo as int, hi as int)),
{
    let ghost s = b@.subrange(lo as int, hi as int);
    if lo < hi && b[lo] == 45 {
        assert(s.skip(1) =~= b@.subrange(lo + 1, hi as int));
        if lo + 1 == hi {
            return None;
        }
        match digit_run(b, lo + 1, hi) {
            Some(v) => {
                if v <= 0x8000_0000_0000_0000u64 {
                    if v == 0x8000_0000_0000_0000u64 {
                        Some(i64::MIN)
                    } else {
                        Some(-(v as i64))
                    }
                } else {
                    None
                }
            },
            None => None,
        }
    } else {
        let start = if lo < hi && b[lo] == 43 {
            assert(s.skip(1) =~= b@.subrange(lo + 1, hi as int));
            lo + 1
        } else {
            lo
        };
        if start == hi {
            return None;
        }
        match digit_run(b, start, hi) {
            Some(v) => {
                if v <= i64::MAX as u64 {
                    Some(v as i64)
                } else {
                    None
                }
            },
            None => None,
        }
    }
}

// ---------------------------------------------------------------------------
// Byte-sequence scanning
// ---------------------------------------------------------------------------

/// `s` without its trailing run of `c`.
pub open spec fn strip_end(s: Seq<u8>, c: u8) -> Seq<u8>
    decreases s.len(),
{
    if s.len() > 0 && s.last() == c {
        strip_end(s.drop_last(), c)
    } else {
        s
    }
}

/// Index of the last `c` in `s`, or -1.
pub open spec fn last_index(s: Seq<u8>, c: u8) -> int
    decreases s.len(),
{
    if s.len() == 0 {
        -1
    } else if s.last() == c {
        s.len() - 1
    } else {
        last_index(s.drop_last(), c)
    }
}

/// Index of the first `c` in `s`, or -1.
pub open spec fn first_index(s: Seq<u8>, c: u8) -> int
    decreases s.len(),
{
    if s.len() == 0 {
        -1
    } else {
        let f = first_index(s.drop_last(), c);
        if f >= 0 {
            f
        } else if s.last() == c {
            s.len() - 1
        } else {
            -1
        }
    }
}

/// The pieces of `s` between the separators `sep` (`str::split`), as
/// index ranges into `s`.
pub open spec fn split_ranges(s: Seq<u8>, sep: u8) -> Seq<(int, int)>
    decreases s.len(),
{
    if s.len() == 0 {
        seq![(0int, 0int)]
    } else {
        let p = split_ranges(s.drop_last(), sep);
        if s.last() == sep {
            p.push((s.len() as int, s.len() as int))
        } else {
            p.update(p.len() - 1, (p.last().0, s.len() as int))
        }
    }
}

proof fn lemma_strip_end(s: Seq<u8>, c: u8)
    ensures
        strip_end(s, c).len() <= s.len(),
        strip_end(s, c) == s.take(strip_end(s, c).len() as int),
    decreases s.len(),
{
    if s.len() > 0 && s.last() == c {
        lemma_strip_end(s.drop_last(), c);
        assert(s.drop_last().take(strip_end(s, c).len() as int) =~= s.take(strip_end(s, c).len() as int));
    } else {
        assert(s.take(s.len() as int) =~= s);
    }
}

pub proof fn lemma_last_index(s: Seq<u8>, c: u8)
    ensures
        -1 <= last_index(s, c) < s.len(),
        last_index(s, c) >= 0 ==> s[last_index(s, c)] == c,
        forall|j: int| last_index(s, c) < j < s.len() ==> s[j] != c,
    decreases s.len(),
{
    if s.len() > 0 && s.last() != c {
        lemma_last_index(s.drop_last(), c);
        assert forall|j: int| last_index(s, c) < j < s.len() implies s[j] != c by {
            if j < s.len() - 1 {
                assert(s[j] == s.drop_last()[j]);
            }
        }
    }
}

pub proof fn lemma_first_index(s: Seq<u8>, c: u8)
    ensures
        -1 <= first_index(s, c) < s.len(),
        first_index(s, c) >= 0 ==> s[first_index(s, c)] == c,
        forall|j: int| 0 <= j < s.len() && (first_index(s, c) == -1 || j < first_index(s, c)) ==> s[j] != c,
    decreases s.len(),
{
    if s.len() > 0 {
        lemma_first_index(s.drop_last(), c);
        assert forall|j: int| 0 <= j < s.len() && (first_index(s, c) == -1 || j < first_index(s, c)) implies s[j] != c by {
            if j < s.len() - 1 {
                assert(s[j] == s.drop_last()[j]);
            }
        }
    }
}

pub proof fn lemma_split_ranges(s: Seq<u8>, sep: u8)
    ensures
        split_ranges(s, sep).len() >= 1,
        forall|i: int|
            0 <= i < split_ranges(s, sep).len() ==> 0 <= (#[trigger] split_ranges(s, sep)[i]).0
                <= split_ranges(s, sep)[i].1 <= s.len(),
    decreases s.len(),
{
    if s.len() > 0 {
        lemma_split_ranges(s.drop_last(), sep);
    }
}

/// Length of `b` once its trailing run of `c` is dropped.
fn strip_end_len(b: &[u8], n: usize, c: u8) -> (r: usize)
    requires
        n <= b@.len(),
    ensures
        r as int == strip_end(b@.take(n as int), c).len(),
{
    let mut k = n;
    while k > 0 && b[k - 1] == c
        invariant
            k <= n <= b@.len(),
            strip_end(b@.take(n as int), c) == strip_end(b@.take(k as int), c),
        decreases k,
    {
        assert(b@.take(k as int).drop_last() =~= b@.take(k - 1));
        k = k - 1;
    }
    k
}

/// Index of the last `c` within `b[..n]`, if any.
fn last_index_exec(b: &[u8], n: usize, c: u8) -> (r: Option<usize>)
    requires
        n <= b@.len(),
    ensures
        match r {
            Some(i) => i as int == last_index(b@.take(n as int), c),
            None => last_index(b@.take(n as int), c) == -1,
        },
{
    let mut k = n;
    while k > 0
        invariant
            k <= n <= b@.len(),
            last_index(b@.take(n as int), c) == last_index(b@.take(k as int), c),
        decreases k,
    {
        assert(b@.take(k as int).drop_last() =~= b@.take(k - 1));
        if b[k - 1] == c {
            return Some(k - 1);
        }
        k = k - 1;
    }
    None
}

/// Index of the first `c` within `b[..n]`, if any.
fn first_index_exec(b: &[u8], n: usize, c: u8) -> (r: Option<usize>)
    requires
        n <= b@.len(),
    ensures
        match r {
            Some(i) => i as int == first_index(b@.take(n as int), c),
            None => first_index(b@.take(n as int), c) == -1,
        },
{
    let mut k: usize = 0;
    while k < n
        invariant
            k <= n <= b@.len(),
            first_index(b@.take(k as int), c) == -1,
        decreases n - k,
    {
        assert(b@.take(k + 1).drop_last() =~= b@.take(k as int));
        if b[k] == c {
            proof {
                assert(b@.take(n as int).take(k as int) =~= b@.take(k as int));
                lemma_first_index_prefix(b@.take(n as int), c, k as int);
            }
            return Some(k);
        }
        k = k + 1;
    }
    assert(b@.take(n as int) =~= b@.take(k as int));
    None
}

proof fn lemma_first_index_prefix(s: Seq<u8>, c: u8, k: int)
    requires
        0 <= k < s.len(),
        first_index(s.take(k), c) == -1,
        s[k] == c,
    ensures
        first_index(s, c) == k,
    decreases s.len(),
{
    if k == s.len() - 1 {
        assert(s.drop_last() =~= s.take(k));
    } else {
        assert(s.drop_last().take(k) =~= s.take(k));
        lemma_first_index_prefix(s.drop_last(), c, k);
    }
}

/// The pieces of `b[lo..hi]` between separators `sep`, as absolute ranges.
fn split_exec(b: &[u8], lo: usize, hi: usize, sep: u8) -> (r: Vec<(usize, usize)>)
    requires
        lo <= hi <= b@.len(),
    ensures
        r@.len() == split_ranges(b@.subrange(lo as int, hi as int), sep).len(),
        forall|i: int|
            0 <= i < r@.len() ==> (#[trigger] r@[i]).0 - lo == split_ranges(
                b@.subrange(lo as int, hi as int),
                sep,
            )[i].0 && r@[i].1 - lo == split_ranges(b@.subrange(lo as int, hi as int), sep)[i].1,
{
    let ghost s = b@.subrange(lo as int, hi as int);
    let mut r: Vec<(usize, usize)> = Vec::new();
    r.push((lo, lo));
    let mut k = lo;
    assert(s.take(0) =~= Seq::<u8>::empty());
    while k < hi
        invariant
            lo <= k <= hi <= b@.len(),
            s == b@.subrange(lo as int, hi as int),
            r@.len() == split_ranges(s.take(k - lo), sep).len(),
            r@.len() >= 1,
            forall|i: int|
                0 <= i < r@.len() ==> (#[trigger] r@[i]).0 - lo == split_ranges(s.take(k - lo), sep)[i].0
                    && r@[i].1 - lo == split_ranges(s.take(k - lo), sep)[i].1 && lo <= r@[i].0 <= r@[i].1 <= k,
        decreases hi - k,
    {
        proof {
            let t = s.take(k - lo + 1);
            assert(t.drop_last() =~= s.take(k - lo));
            assert(t.last() == b@[k as int]);
        }
        if b[k] == sep {
            r.push((k + 1, k + 1));
        } else {
            let last = r.len() - 1;
            let (a, _e) = r[last];
            r.set(last, (a, k + 1));
        }
        k = k + 1;
    }
    assert(s.take(hi - lo) =~= s);
    r
}

// ---------------------------------------------------------------------------
// Calendar
// ---------------------------------------------------------------------------

pub open spec fn is_leap(y: int) -> bool {
    (y % 4 == 0 && y % 100 != 0) || y % 400 == 0
}

pub open spec fn year_len(y: int) -> int {
    if is_leap(y) {
        366
    } else {
        365
    }
}

/// Days from 1970-01-01 to the first day of year `y` (0 for years up to 1970).
pub open spec fn days_before_year(y: int) -> int
    decreases y - 1970,
{
    if y <= 1970 {
        0
    } else {
        days_before_year(y - 1) + year_len(y - 1)
    }
}

/// Length of month `m` (0 = January); 30 past December.
pub open spec fn month_len(m: int, leap: bool) -> int {
    if m == 0 {
        31
    } else if m == 1 {
        if leap {
            29
        } else {
            28
        }
    } else if m == 2 {
        31
    } else if m == 3 {
        30
    } else if m == 4 {
        31
    } else if m == 5 {
        30
    } else if m == 6 {
        31
    } else if m == 7 {
        31
    } else if m == 8 {
        30
    } else if m == 9 {
        31
    } else if m == 10 {
        30
    } else if m == 11 {
        31
    } else {
        30
    }
}

/// Days in the first `k` months of a year.
pub open spec fn months_before(k: int, leap: bool) -> int
    decreases k,
{
    if k <= 0 {
        0
    } else {
        months_before(k - 1, leap) + month_len(k - 1, leap)
    }
}

/// Seconds since the epoch of a date and time (month and day count from 1;
/// 0 counts as 1).
pub open spec fn epoch_of(f: (u64, u64, u64, u64, u64, u64)) -> int {
    let (y, mo, d, h, mi, s) = f;
    let days = days_before_year(y as int) + months_before(if mo >= 1 { mo - 1 } else { 0 }, is_leap(y as int)) + (
    if d >= 1 {
        d - 1
    } else {
        0
    });
    days * 86400 + h * 3600 + mi * 60 + s
}

/// Seconds since the epoch of any fields are non-negative.
pub proof fn lemma_epoch_nonneg(f: (u64, u64, u64, u64, u64, u64))
    ensures
        epoch_of(f) >= 0,
{
    let (y, mo, d, h, mi, s) = f;
    lemma_days_nonneg(y as int);
    lemma_months_nonneg(if mo >= 1 { mo - 1 } else { 0 }, is_leap(y as int));
    let days = days_before_year(y as int) + months_before(if mo >= 1 { mo - 1 } else { 0 }, is_leap(y as int)) + (
    if d >= 1 {
        d - 1
    } else {
        0
    });
    assert(days * 86400 + h * 3600 + mi * 60 + s >= 0) by (nonlinear_arith)
        requires
            days >= 0,
            h >= 0,
            mi >= 0,
            s >= 0,
    ;
}

pub proof fn lemma_days_mono(a: int, b: int)
    requires
        a <= b,
    ensures
        days_before_year(a) <= days_before_year(b),
        days_before_year(a) >= 0,
    decreases b - a,
{
    if a < b {
        lemma_days_mono(a, b - 1);
    } else {
        lemma_days_nonneg(a);
    }
}

proof fn lemma_days_nonneg(a: int)
    ensures
        days_before_year(a) >= 0,
    decreases a - 1970,
{
    if a > 1970 {
        lemma_days_nonneg(a - 1);
    }
}

proof fn lemma_months_mono(a: int, b: int, leap: bool)
    requires
        a <= b,
    ensures
        months_before(a, leap) <= months_before(b, leap),
        months_before(a, leap) >= 0,
    decreases b - a,
{
    if a < b {
        lemma_months_mono(a, b - 1, leap);
    } else {
        lemma_months_nonneg(a, leap);
    }
}

proof fn lemma_months_nonneg(a: int, leap: bool)
    ensures
        months_before(a, leap) >= 0,
    decreases a,
{
    if a > 0 {
        lemma_months_nonneg(a - 1, leap);
    }
}

fn is_leap_exec(y: u64) -> (b: bool)
    ensures
        b == is_leap(y as int),
{
    (y % 4 == 0 && y % 100 != 0) || y % 400 == 0
}

fn month_len_exec(m: u64, leap: bool) -> (r: u64)
    ensures
        r == month_len(m as int, leap),
{
    if m == 0 {
        31
    } else if m == 1 {
        if leap {
            29
        } else {
            28
        }
    } else if m == 2 {
        31
    } else if m == 3 {
        30
    } else if m == 4 {
        31
    } else if m == 5 {
        30
    } else if m == 6 {
        31
    } else if m == 7 {
        31
    } else if m == 8 {
        30
    } else if m == 9 {
        31
    } else if m == 10 {
        30
    } else if m == 11 {
        31
    } else {
        30
    }
}

/// The epoch seconds of a date and time, when they fit in `u64`.
pub fn epoch_checked(y: u64, mo: u64, d: u64, h: u64, mi: u64, s: u64) -> (r: Option<u64>)
    ensures
        r == (if epoch_of((y, mo, d, h, mi, s)) <= u64::MAX {
            Some(epoch_of((y, mo, d, h, mi, s)) as u64)
        } else {
            None
        }),
{
    let limit: u64 = u64::MAX / 86400;
    let leap = is_leap_exec(y);
    let ghost f = (y, mo, d, h, mi, s);
    let ghost k = if mo >= 1 { mo - 1 } else { 0 };
    let ghost dd = if d >= 1 { d - 1 } else { 0 };
    proof {
        lemma_days_nonneg(y as int);
        lemma_months_nonneg(k as int, leap);
        let x = days_before_year(y as int) + months_before(k as int, leap);
        assert(epoch_of(f) == (x + dd) * 86400 + h * 3600 + mi * 60 + s);
        assert(epoch_of(f) >= x * 86400) by (nonlinear_arith)
            requires
                epoch_of(f) == (x + dd) * 86400 + h * 3600 + mi * 60 + s,
                dd >= 0,
                h >= 0,
                mi >= 0,
                s >= 0,
        ;
    }
    let mut total: u64 = 0;
    let mut yy: u64 = 1970;
    while yy < y
        invariant
            1970 <= yy,
            yy <= y || yy == 1970,
            total as int == days_before_year(yy as int),
            total <= limit,
            limit == u64::MAX / 86400,
            f == (y, mo, d, h, mi, s),
            k == (if mo >= 1 { mo - 1 } else { 0 }),
            leap == is_leap(y as int),
            epoch_of(f) >= (days_before_year(y as int) + months_before(k as int, leap)) * 86400,
            months_before(k as int, leap) >= 0,
        decreases y - yy,
    {
        let len: u64 = if is_leap_exec(yy) {
            366
        } else {
            365
        };
        total = total + len;
        yy = yy + 1;
        assert(total as int == days_before_year(yy as int));
        if total > limit {
            proof {
                lemma_days_mono(yy as int, y as int);
                let x = days_before_year(y as int) + months_before(k as int, leap);
                assert(x * 86400 > u64::MAX) by (nonlinear_arith)
                    requires
                        x > u64::MAX / 86400,
                ;
            }
            return None;
        }
    }
    proof {
        if y < 1970 {
            assert(days_before_year(y as int) == 0);
        }
    }
    let kk: u64 = if mo >= 1 {
        mo - 1
    } else {
        0
    };
    let mut m: u64 = 0;
    while m < kk
        invariant
            m <= kk,
            kk == k,
            total as int == days_before_year(y as int) + months_before(m as int, leap),
            total <= limit,
            limit == u64::MAX / 86400,
            f == (y, mo, d, h, mi, s),
            leap == is_leap(y as int),
            epoch_of(f) >= (days_before_year(y as int) + months_before(k as int, leap)) * 86400,
            days_before_year(y as int) >= 0,
        decreases kk - m,
    {
        total = total + month_len_exec(m, leap);
        m = m + 1;
        if total > limit {
            proof {
                lemma_months_mono(m as int, k as int, leap);
                let x = days_before_year(y as int) + months_before(k as int, leap);
                assert(x * 86400 > u64::MAX) by (nonlinear_arith)
                    requires
                        x > u64::MAX / 86400,
                ;
            }
            return None;
        }
    }
    let ddx: u64 = if d >= 1 {
        d - 1
    } else {
        0
    };
    let days: u64 = match total.checked_add(ddx) {
        Some(v) => v,
        None => {
            assert(epoch_of(f) > u64::MAX) by (nonlinear_arith)
                requires
                    epoch_of(f) == (total + ddx) * 86400 + h * 3600 + mi * 60 + s,
                    total + ddx > u64::MAX,
                    h >= 0,
                    mi >= 0,
                    s >= 0,
            ;
            return None;
        },
    };
    assert(epoch_of(f) == days * 86400 + h * 3600 + mi * 60 + s);
    let a = match days.checked_mul(86400) {
        Some(a) => a,
        None => {
            assert(epoch_of(f) > u64::MAX) by (nonlinear_arith)
                requires
                    epoch_of(f) == days * 86400 + h * 3600 + mi * 60 + s,
                    days * 86400 > u64::MAX,
                    h >= 0,
                    mi >= 0,
                    s >= 0,
            ;
            return None;
        },
    };
    let b = match h.checked_mul(3600) {
        Some(b) => b,
        None => {
            assert(epoch_of(f) > u64::MAX) by (nonlinear_arith)
                requires
                    epoch_of(f) == days * 86400 + h * 3600 + mi * 60 + s,
                    h * 3600 > u64::MAX,
                    days >= 0,
                    mi >= 0,
                    s >= 0,
            ;
            return None;
        },
    };
    let c = match mi.checked_mul(60) {
        Some(c) => c,
        None => {
            assert(epoch_of(f) > u64::MAX) by (nonlinear_arith)
                requires
                    epoch_of(f) == days * 86400 + h * 3600 + mi * 60 + s,
                    mi * 60 > u64::MAX,
                    days >= 0,
                    h >= 0,
                    s >= 0,
            ;
            return None;
        },
    };
    assert(epoch_of(f) == a + b + c + s);
    match a.checked_add(b) {
        Some(ab) => match ab.checked_add(c) {
            Some(abc) => abc.checked_add(s),
            None => None,
        },
        None => None,
    }
}

// ---------------------------------------------------------------------------
// Reading a timestamp back
// ---------------------------------------------------------------------------

/// The timestamp without its trailing `Z`s, and without a `+hh:mm` or
/// `-hh:mm` offset (a `+` or `-` counts as an offset past byte 10 only).
pub open spec fn iso_clean(b: Seq<u8>) -> Seq<u8> {
    let c1 = strip_end(b, 90);
    let p = last_index(c1, 43);
    if p >= 0 {
        if p > 10 {
            c1.take(p)
        } else {
            c1
        }
    } else {
        let m = last_index(c1, 45);
        if m > 10 {
            c1.take(m)
        } else {
            c1
        }
    }
}

pub open spec fn piece(s: Seq<u8>, r: (int, int)) -> Seq<u8> {
    s.subrange(r.0, r.1)
}

/// Year, month, day, hour, minute and second of a timestamp: the date
/// before the first `T` in three `-`-separated fields, the time after it in
/// at least three `:`-separated fields, the seconds up to any `.`.
pub open spec fn iso_fields(b: Seq<u8>) -> Option<(u64, u64, u64, u64, u64, u64)> {
    let c = iso_clean(b);
    let t = first_index(c, 84);
    if t < 0 {
        None
    } else {
        let date = c.take(t);
        let time = c.skip(t + 1);
        let dp = split_ranges(date, 45);
        let tp = split_ranges(time, 58);
        if dp.len() != 3 || tp.len() < 3 {
            None
        } else {
            let sp = piece(time, tp[2]);
            let sec = piece(sp, split_ranges(sp, 46)[0]);
            match (
                parse_u64_spec(piece(date, dp[0])),
                parse_u64_spec(piece(date, dp[1])),
                parse_u64_spec(piece(date, dp[2])),
                parse_u64_spec(piece(time, tp[0])),
                parse_u64_spec(piece(time, tp[1])),
                parse_u64_spec(sec),
            ) {
                (Some(y), Some(mo), Some(d), Some(h), Some(mi), Some(s)) => Some((y, mo, d, h, mi, s)),
                _ => None,
            }
        }
    }
}

/// The epoch seconds of a timestamp's fields fit in `u64` (or it has none).
pub open spec fn iso_epoch_fits(b: Seq<u8>) -> bool {
    match iso_fields(b) {
        Some(f) => epoch_of(f) <= u64::MAX,
        None => true,
    }
}

/// Length of the cleaned timestamp (`iso_clean`), a prefix of the bytes.
fn clean_len(b: &[u8]) -> (n2: usize)
    ensures
        n2 <= b@.len(),
        iso_clean(b@) == b@.take(n2 as int),
{
    let ghost bs = b@;
    let n = b.len();
    assert(bs.take(n as int) =~= bs);
    let n1 = strip_end_len(b, n, 90);
    proof {
        lemma_strip_end(bs, 90);
    }
    assert(strip_end(bs, 90) =~= bs.take(n1 as int));
    let n2 = match last_index_exec(b, n1, 43) {
        Some(p) => if p > 10 {
            p
        } else {
            n1
        },
        None => match last_index_exec(b, n1, 45) {
            Some(m) => if m > 10 {
                m
            } else {
                n1
            },
            None => n1,
        },
    };
    proof {
        lemma_last_index(bs.take(n1 as int), 43);
        lemma_last_index(bs.take(n1 as int), 45);
        assert(iso_clean(bs) =~= bs.take(n2 as int));
    }
    n2
}

/// The six fields, given the date's and the time's `-` and `:` ranges.
fn fields_from(b: &[u8], dp: &Vec<(usize, usize)>, tp: &Vec<(usize, usize)>) -> (r: Option<(u64, u64, u64, u64, u64, u64)>)
    requires
        dp@.len() == 3,
        tp@.len() >= 3,
        forall|i: int| 0 <= i < 3 ==> (#[trigger] dp@[i]).0 <= dp@[i].1 <= b@.len(),
        forall|i: int| 0 <= i < 3 ==> (#[trigger] tp@[i]).0 <= tp@[i].1 <= b@.len(),
    ensures
        ({
            let sp = b@.subrange(tp@[2].0 as int, tp@[2].1 as int);
            r == match (
                parse_u64_spec(b@.subrange(dp@[0].0 as int, dp@[0].1 as int)),
                parse_u64_spec(b@.subrange(dp@[1].0 as int, dp@[1].1 as int)),
                parse_u64_spec(b@.subrange(dp@[2].0 as int, dp@[2].1 as int)),
                parse_u64_spec(b@.subrange(tp@[0].0 as int, tp@[0].1 as int)),
                parse_u64_spec(b@.subrange(tp@[1].0 as int, tp@[1].1 as int)),
                parse_u64_spec(piece(sp, split_ranges(sp, 46)[0])),
            ) {
                (Some(y), Some(mo), Some(d), Some(h), Some(mi), Some(s)) => Some((y, mo, d, h, mi, s)),
                _ => None,
            }
        }),
{
    assert(dp@[0].0 <= dp@[0].1 <= b@.len());
    assert(dp@[1].0 <= dp@[1].1 <= b@.len());
    assert(dp@[2].0 <= dp@[2].1 <= b@.len());
    assert(tp@[0].0 <= tp@[0].1 <= b@.len());
    assert(tp@[1].0 <= tp@[1].1 <= b@.len());
    assert(tp@[2].0 <= tp@[2].1 <= b@.len());
    let sp = split_exec(b, tp[2].0, tp[2].1, 46);
    proof {
        let sps = b@.subrange(tp@[2].0 as int, tp@[2].1 as int);
        lemma_split_ranges(sps, 46);
        assert(piece(sps, split_ranges(sps, 46)[0]) =~= b@.subrange(sp@[0].0 as int, sp@[0].1 as int));
    }
    let year = parse_u64_bytes(b, dp[0].0, dp[0].1);
    let month = parse_u64_bytes(b, dp[1].0, dp[1].1);
    let day = parse_u64_bytes(b, dp[2].0, dp[2].1);
    let hour = parse_u64_bytes(b, tp[0].0, tp[0].1);
    let min = parse_u64_bytes(b, tp[1].0, tp[1].1);
    let sec = parse_u64_bytes(b, sp[0].0, sp[0].1);
    match (year, month, day, hour, min, sec) {
        (Some(y), Some(mo), Some(d), Some(h), Some(mi), Some(s)) => Some((y, mo, d, h, mi, s)),
        _ => None,
    }
}

fn iso_fields_exec(iso: &str) -> (r: Option<(u64, u64, u64, u64, u64, u64)>)
    ensures
        r == iso_fields(bytes_of(iso)),
{
    let b = iso.as_bytes();
    let ghost bs = b@;
    let n2 = clean_len(b);
    let ghost c = bs.take(n2 as int);
    let t = match first_index_exec(b, n2, 84) {
        Some(t) => t,
        None => return None,
    };
    proof {
        lemma_first_index(c, 84);
    }
    let ghost date = c.take(t as int);
    let ghost time = c.skip(t + 1);
    assert(date =~= bs.subrange(0, t as int));
    assert(time =~= bs.subrange(t + 1, n2 as int));
    let dp = split_exec(b, 0, t, 45);
    let tp = split_exec(b, t + 1, n2, 58);
    if dp.len() != 3 || tp.len() < 3 {
        return None;
    }
    proof {
        lemma_split_ranges(date, 45);
        lemma_split_ranges(time, 58);
        let dps = split_ranges(date, 45);
        let tps = split_ranges(time, 58);
        assert(piece(date, dps[0]) =~= bs.subrange(dp@[0].0 as int, dp@[0].1 as int));
        assert(piece(date, dps[1]) =~= bs.subrange(dp@[1].0 as int, dp@[1].1 as int));
        assert(piece(date, dps[2]) =~= bs.subrange(dp@[2].0 as int, dp@[2].1 as int));
        assert(piece(time, tps[0]) =~= bs.subrange(tp@[0].0 as int, tp@[0].1 as int));
        assert(piece(time, tps[1]) =~= bs.subrange(tp@[1].0 as int, tp@[1].1 as int));
        assert(piece(time, tps[2]) =~= bs.subrange(tp@[2].0 as int, tp@[2].1 as int));
    }
    fields_from(b, &dp, &tp)
}

/// Seconds since the epoch of an ISO-8601 timestamp such as
/// `2026-04-17T00:44:17Z` (fractional seconds and an offset are dropped, not
/// applied); `None` when the text does not have that shape or a field is
/// not a number.
pub fn parse_iso_epoch(iso: &str) -> (r: Option<u64>)
    requires
        iso_epoch_fits(bytes_of(iso)),
    ensures
        r == match iso_fields(bytes_of(iso)) {
            Some(f) => Some(epoch_of(f) as u64),
            None => None,
        },
{
    parse_iso_epoch_pub(iso)
}

/// The epoch seconds a timestamp's bytes read as: `None` when the text has
/// no date and time fields or the seconds would not fit in `u64`.
pub open spec fn iso_epoch(b: Seq<u8>) -> Option<u64> {
    match iso_fields(b) {
        Some(f) => if epoch_of(f) <= u64::MAX {
            Some(epoch_of(f) as u64)
        } else {
            None
        },
        None => None,
    }
}

/// `parse_iso_epoch` for any text: also `None` when the seconds would not
/// fit in `u64`.
pub fn parse_iso_epoch_pub(iso: &str) -> (r: Option<u64>)
    ensures
        r == iso_epoch(bytes_of(iso)),
{
    match iso_fields_exec(iso) {
        Some((y, mo, d, h, mi, s)) => epoch_checked(y, mo, d, h, mi, s),
        None => None,
    }
}

/// Do the epoch seconds of `iso` fit in `u64` (or does it not parse)?
pub fn iso_epoch_fits_exec(iso: &str) -> (b: bool)
    ensures
        b == iso_epoch_fits(bytes_of(iso)),
{
    match iso_fields_exec(iso) {
        Some((y, mo, d, h, mi, s)) => epoch_checked(y, mo, d, h, mi, s).is_some(),
        None => true,
    }
}

// ---------------------------------------------------------------------------
// Writing a timestamp
// ---------------------------------------------------------------------------

/// The year a day count (from 1970-01-01) falls in, and the day within it.
pub open spec fn year_split(days: int, y: int) -> (int, int)
    decreases days,
{
    if days < year_len(y) {
        (y, days)
    } else {
        year_split(days - year_len(y), y + 1)
    }
}

/// The month (0 = January; 12 when the day runs past December) a day of
/// the year falls in, and the day within it, counting from month `i`.
pub open spec fn month_split(rem: int, leap: bool, i: int) -> (int, int)
    decreases 12 - i,
{
    if i >= 12 || rem < month_len(i, leap) {
        (i, rem)
    } else {
        month_split(rem - month_len(i, leap), leap, i + 1)
    }
}

/// `YYYY-MM-DDTHH:MM:SSZ` for `secs` seconds after the epoch (UTC).
pub open spec fn iso_text(secs: u64) -> Seq<char> {
    let (y, rem) = year_split((secs / 86400) as int, 1970);
    let (m, r) = month_split(rem, is_leap(y), 0);
    zero_pad(dec(y as nat), 4) + "-"@ + zero_pad(dec((m + 1) as nat), 2) + "-"@ + zero_pad(dec((r + 1) as nat), 2)
        + "T"@ + zero_pad(dec(((secs % 86400) / 3600) as nat), 2) + ":"@ + zero_pad(dec(((secs % 3600) / 60) as nat), 2)
        + ":"@ + zero_pad(dec((secs % 60) as nat), 2) + "Z"@
}

fn push_padded(v: &mut Vec<char>, n: u64, w: usize)
    ensures
        final(v)@ == old(v)@ + zero_pad(dec(n as nat), w as nat),
{
    let d = u64_dec(n);
    let p = pad_zeros(&d, w);
    push_chars(v, &p);
}

/// The ISO-8601 UTC text of `secs` seconds after the epoch.
pub fn format_iso(secs: u64) -> (r: String)
    ensures
        r@ == iso_text(secs),
{
    let hours = (secs % 86400) / 3600;
    let mins = (secs % 3600) / 60;
    let sec = secs % 60;
    let days = secs / 86400;
    let mut y: u64 = 1970;
    let mut remaining: u64 = days;
    loop
        invariant
            1970 <= y <= 1970 + days - remaining,
            remaining <= days,
            days == secs / 86400,
            year_split(days as int, 1970) == year_split(remaining as int, y as int),
        ensures
            1970 <= y <= 1970 + days,
            days == secs / 86400,
            year_split(days as int, 1970) == (y as int, remaining as int),
        decreases remaining,
    {
        let diy: u64 = if is_leap_exec(y) {
            366
        } else {
            365
        };
        if remaining < diy {
            break;
        }
        remaining = remaining - diy;
        y = y + 1;
    }
    let leap = is_leap_exec(y);
    let mut m: u64 = 0;
    let mut i: u64 = 0;
    while i < 12
        invariant
            i <= 12,
            m == i,
            remaining <= days,
            days == secs / 86400,
            month_split(year_split(days as int, 1970).1, leap, 0) == month_split(remaining as int, leap, i as int),
        ensures
            m <= 12,
            remaining <= days,
            month_split(year_split(days as int, 1970).1, leap, 0) == (m as int, remaining as int),
        decreases 12 - i,
    {
        let ml = month_len_exec(i, leap);
        if remaining < ml {
            break;
        }
        remaining = remaining - ml;
        m = i + 1;
        i = i + 1;
    }
    let mut v: Vec<char> = Vec::new();
    push_padded(&mut v, y, 4);
    push_str(&mut v, "-");
    push_padded(&mut v, m + 1, 2);
    push_str(&mut v, "-");
    push_padded(&mut v, remaining + 1, 2);
    push_str(&mut v, "T");
    push_padded(&mut v, hours, 2);
    push_str(&mut v, ":");
    push_padded(&mut v, mins, 2);
    push_str(&mut v, ":");
    push_padded(&mut v, sec, 2);
    push_str(&mut v, "Z");
    string_from_chars(&v)
}

/// `SystemTime::now()` measured from `UNIX_EPOCH`, in whole seconds; `None`
/// when the clock reads before the epoch.
#[verifier::external_body]
fn unix_secs_now() -> Option<u64> {
    std::time::SystemTime::now().duration_since(std::time::UNIX_EPOCH).ok().map(|d| d.as_secs())
}

/// `SystemTime::now()` measured from `UNIX_EPOCH`, in whole milliseconds;
/// `None` when the clock reads before the epoch.
#[verifier::external_body]
fn unix_millis_now() -> Option<u128> {
    std::time::SystemTime::now().duration_since(std::time::UNIX_EPOCH).ok().map(|d| d.as_millis())
}

/// The current UTC time as `YYYY-MM-DDTHH:MM:SSZ` (the epoch itself when the
/// clock reads before it): the text of some second count, which, for every
/// year below 10000, is twenty characters in that fixed zero-padded form and
/// reads back as that second count.
pub fn iso_now() -> (r: String)
    ensures
        exists|secs: u64|
            #![trigger iso_text(secs)]
            r@ == iso_text(secs) && (crate::roundtrip::iso_parts(secs).0 < 10000 ==> crate::roundtrip::iso_shape(r@)
                && iso_epoch(vstd::utf8::encode_utf8(r@)) == Some(secs)),
{
    let secs = clock_secs();
    proof {
        if crate::roundtrip::iso_parts(secs).0 < 10000 {
            crate::roundtrip::law_iso_text_shape(secs);
        }
    }
    format_iso(secs)
}

/// Seconds since the epoch from a clock reading: the reading, or 0 (the
/// epoch itself) when the clock read before the epoch.
pub fn secs_or_epoch(reading: Option<u64>) -> (r: u64)
    ensures
        r == match reading {
            Some(s) => s,
            None => 0u64,
        },
{
    match reading {
        Some(s) => s,
        None => 0,
    }
}

/// Milliseconds since the epoch from a clock reading in `u128`: its low 64
/// bits (`as u64`), or 0 when the clock read before the epoch.
pub fn millis_or_epoch(reading: Option<u128>) -> (r: u64)
    ensures
        r == match reading {
            Some(m) => m as u64,
            None => 0u64,
        },
{
    match reading {
        Some(m) => m as u64,
        None => 0,
    }
}

/// Whole seconds since the epoch by the system clock (0 when the clock
/// reads before the epoch). Any `u64` can come back: what the clock reads
/// is not stated.
pub fn clock_secs() -> u64 {
    secs_or_epoch(unix_secs_now())
}

/// Whole milliseconds since the epoch by the system clock, as
/// `millis_or_epoch` takes them from the reading. Any `u64` can come back:
/// what the clock reads is not stated.
pub fn clock_millis() -> u64 {
    millis_or_epoch(unix_millis_now())
}

} // verus!
