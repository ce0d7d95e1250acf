//! Reading back what was written: the timestamps this library writes parse
//! back to the seconds they were written from, and the ids it allocates
//! from counters name the counter value they were made from.
use vstd::prelude::*;

use crate::currency::hex_id;
use crate::launcher::pow10;
use crate::text::{base_digits, dec, digit_char, zero_pad};
use crate::timefmt::{first_index, iso_clean, iso_fields, last_index, lemma_first_index, lemma_last_index, parse_u64_spec, piece, split_ranges, strip_end, iso_text, iso_epoch, all_digit_bytes, days_before_year, digits_value, epoch_of, is_digit_byte, is_leap, month_len, month_split, months_before, year_len, year_split};

verus! {

/// The bytes of an ASCII text, one per character.
pub open spec fn ascii_bytes(s: Seq<char>) -> Seq<u8> {
    s.map_values(|c: char| c as u8)
}

/// Every character is a decimal digit.
pub open spec fn digit_chars(s: Seq<char>) -> bool {
    forall|i: int| 0 <= i < s.len() ==> '0' <= #[trigger] s[i] <= '9'
}

proof fn lemma_digit_char(d: nat)
    requires
        d < 10,
    ensures
        '0' <= digit_char(d) <= '9',
        digit_char(d) as u8 == 48 + d,
{
    if d == 0 {
    } else if d == 1 {
    } else if d == 2 {
    } else if d == 3 {
    } else if d == 4 {
    } else if d == 5 {
    } else if d == 6 {
    } else if d == 7 {
    } else if d == 8 {
    } else {
    }
}

proof fn lemma_ascii_push(s: Seq<char>, c: char)
    ensures
        ascii_bytes(s.push(c)) == ascii_bytes(s).push(c as u8),
{
    assert(ascii_bytes(s.push(c)) =~= ascii_bytes(s).push(c as u8));
}

proof fn lemma_digit_bytes(s: Seq<char>)
    requires
        digit_chars(s),
    ensures
        all_digit_bytes(ascii_bytes(s)),
{
    assert forall|i: int| 0 <= i < ascii_bytes(s).len() implies is_digit_byte(#[trigger] ascii_bytes(s)[i]) by {
        let c = s[i];
        assert('0' <= c <= '9');
        assert((c as u8) >= 48 && (c as u8) <= 57);
    }
}

/// The decimal text of `n` is digits, and reads back as `n`.
pub proof fn lemma_dec_value(n: nat)
    ensures
        digit_chars(dec(n)),
        dec(n).len() >= 1,
        digits_value(ascii_bytes(dec(n))) == n,
    decreases n,
{
    if n < 10 {
        lemma_digit_char(n);
        assert(dec(n) == seq![digit_char(n)]);
        assert(ascii_bytes(dec(n)) =~= Seq::<u8>::empty().push(digit_char(n) as u8));
        let b = ascii_bytes(dec(n));
        assert(b.drop_last() =~= Seq::<u8>::empty());
        assert(b.last() == 48 + n);
        assert(digits_value(b) == digits_value(b.drop_last()) * 10 + (b.last() - 48) as nat);
        assert(digits_value(b.drop_last()) == 0);
    } else {
        let q = n / 10;
        let d = n % 10;
        assert(q < n);
        lemma_dec_value(q);
        lemma_digit_char(d);
        assert(dec(n) == base_digits(q, 10).push(digit_char(d)));
        lemma_ascii_push(dec(q), digit_char(d));
        let b = ascii_bytes(dec(n));
        assert(b.drop_last() =~= ascii_bytes(dec(q)));
        assert(b.last() == 48 + d);
        assert(n == q * 10 + d);
        assert(digits_value(b) == digits_value(b.drop_last()) * 10 + (b.last() - 48) as nat);
        assert forall|i: int| 0 <= i < dec(n).len() implies '0' <= #[trigger] dec(n)[i] <= '9' by {
            if i < dec(q).len() {
                assert(dec(n)[i] == dec(q)[i]);
            }
        }
    }
}

/// The decimal text of `n < 10^j` has at most `j` digits.
pub proof fn lemma_dec_len_le(n: nat, j: nat)
    requires
        j >= 1,
        n < pow10(j),
    ensures
        dec(n).len() <= j,
    decreases j,
{
    if n >= 10 {
        let q = n / 10;
        assert(pow10(j) == 10 * pow10((j - 1) as nat));
        assert(j >= 2) by {
            if j == 1 {
                assert(pow10(0) == 1);
            }
        }
        assert(q < pow10((j - 1) as nat)) by (nonlinear_arith)
            requires
                n < 10 * pow10((j - 1) as nat),
                q == n / 10,
        ;
        lemma_dec_len_le(q, (j - 1) as nat);
        assert(dec(n) == base_digits(q, 10).push(digit_char(n % 10)));
    }
}

/// The decimal text of `n >= 10^j` has more than `j` digits.
pub proof fn lemma_dec_len_gt(n: nat, j: nat)
    requires
        n >= pow10(j),
    ensures
        dec(n).len() > j,
    decreases j,
{
    if j > 0 {
        assert(pow10(j) == 10 * pow10((j - 1) as nat));
        assert(pow10((j - 1) as nat) >= 1) by {
            lemma_pow10_pos((j - 1) as nat);
        }
        let q = n / 10;
        assert(q >= pow10((j - 1) as nat)) by (nonlinear_arith)
            requires
                n >= 10 * pow10((j - 1) as nat),
                q == n / 10,
        ;
        lemma_dec_len_gt(q, (j - 1) as nat);
        assert(n >= 10);
        assert(dec(n) == base_digits(q, 10).push(digit_char(n % 10)));
    } else {
        lemma_dec_value(n);
    }
}

proof fn lemma_pow10_pos(j: nat)
    ensures
        pow10(j) >= 1,
    decreases j,
{
    if j > 0 {
        lemma_pow10_pos((j - 1) as nat);
    }
}

/// A run of `'0'`s in front of digits does not change their value.
proof fn lemma_leading_zeros(k: nat, t: Seq<char>)
    requires
        digit_chars(t),
    ensures
        digits_value(ascii_bytes(Seq::new(k, |_i: int| '0') + t)) == digits_value(ascii_bytes(t)),
    decreases t.len(),
{
    let z = Seq::new(k, |_i: int| '0');
    if t.len() == 0 {
        assert(z + t =~= z);
        lemma_zeros_value(k);
    } else {
        let tl = t.drop_last();
        assert(digit_chars(tl)) by {
            assert forall|i: int| 0 <= i < tl.len() implies '0' <= #[trigger] tl[i] <= '9' by {
                assert(tl[i] == t[i]);
            }
        }
        lemma_leading_zeros(k, tl);
        assert(z + t =~= (z + tl).push(t.last()));
        assert(t =~= tl.push(t.last()));
        lemma_ascii_push(z + tl, t.last());
        lemma_ascii_push(tl, t.last());
        assert(ascii_bytes(z + t).drop_last() =~= ascii_bytes(z + tl));
        assert(ascii_bytes(t).drop_last() =~= ascii_bytes(tl));
    }
}

proof fn lemma_zeros_value(k: nat)
    ensures
        digits_value(ascii_bytes(Seq::new(k, |_i: int| '0'))) == 0,
    decreases k,
{
    if k > 0 {
        lemma_zeros_value((k - 1) as nat);
        let z = Seq::new(k, |_i: int| '0');
        assert(z =~= Seq::new((k - 1) as nat, |_i: int| '0').push('0'));
        lemma_ascii_push(Seq::new((k - 1) as nat, |_i: int| '0'), '0');
        assert(ascii_bytes(z).drop_last() =~= ascii_bytes(Seq::new((k - 1) as nat, |_i: int| '0')));
        assert(ascii_bytes(z).last() == 48);
    }
}

/// Zero-padded decimal text: digits of width at least `w`, reading back as `n`.
pub proof fn lemma_padded_value(n: nat, w: nat)
    ensures
        digit_chars(zero_pad(dec(n), w)),
        zero_pad(dec(n), w).len() == if dec(n).len() >= w { dec(n).len() } else { w },
        digits_value(ascii_bytes(zero_pad(dec(n), w))) == n,
{
    lemma_dec_value(n);
    if dec(n).len() < w {
        let k = (w - dec(n).len()) as nat;
        lemma_leading_zeros(k, dec(n));
        let p = zero_pad(dec(n), w);
        assert forall|i: int| 0 <= i < p.len() implies '0' <= #[trigger] p[i] <= '9' by {
            if i >= k {
                assert(p[i] == dec(n)[i - k]);
            }
        }
    }
}

// ---------------------------------------------------------------------------
// Calendar
// ---------------------------------------------------------------------------

/// Splitting a day count into a year and a day of that year adds back up.
pub proof fn lemma_year_split(days: int, y0: int)
    requires
        days >= 0,
        y0 >= 1970,
    ensures
        year_split(days, y0).0 >= y0,
        0 <= year_split(days, y0).1 < year_len(year_split(days, y0).0),
        days_before_year(year_split(days, y0).0) - days_before_year(y0) + year_split(days, y0).1 == days,
    decreases days,
{
    if days >= year_len(y0) {
        lemma_year_split(days - year_len(y0), y0 + 1);
        assert(days_before_year(y0 + 1) == days_before_year(y0) + year_len(y0));
    }
}

/// Splitting a day of the year into a month and a day of that month adds
/// back up.
pub proof fn lemma_month_split(rem: int, leap: bool, i: int)
    requires
        0 <= i <= 12,
        rem >= 0,
    ensures
        i <= month_split(rem, leap, i).0 <= 12,
        month_split(rem, leap, i).1 >= 0,
        months_before(month_split(rem, leap, i).0, leap) - months_before(i, leap) + month_split(rem, leap, i).1 == rem,
        month_split(rem, leap, i).0 < 12 ==> month_split(rem, leap, i).1 < month_len(month_split(rem, leap, i).0, leap),
    decreases 12 - i,
{
    if i < 12 && rem >= month_len(i, leap) {
        lemma_month_split(rem - month_len(i, leap), leap, i + 1);
        assert(months_before(i + 1, leap) == months_before(i, leap) + month_len(i, leap));
    }
}

proof fn lemma_year_months(leap: bool)
    ensures
        months_before(12, leap) == if leap { 366int } else { 365int },
{
    reveal_with_fuel(months_before, 13);
}

/// A second count split into days, hours, minutes and seconds adds back up.
pub proof fn lemma_secs_split(secs: u64)
    ensures
        (secs / 86400) * 86400 + ((secs % 86400) / 3600) * 3600 + ((secs % 3600) / 60) * 60 + secs % 60 == secs,
{
    let x = secs as int;
    let q = x / 86400;
    let a = x % 86400;
    let b = x % 3600;
    vstd::arithmetic::div_mod::lemma_fundamental_div_mod(x, 86400);
    vstd::arithmetic::div_mod::lemma_fundamental_div_mod(a, 3600);
    vstd::arithmetic::div_mod::lemma_fundamental_div_mod(b, 60);
    vstd::arithmetic::div_mod::lemma_mod_mod(x, 3600, 24);
    vstd::arithmetic::div_mod::lemma_mod_mod(x, 60, 60);
    assert(3600 * 24 == 86400);
    assert(60 * 60 == 3600);
    assert(a % 3600 == b);
    assert(b % 60 == x % 60);
}

/// The calendar fields of `secs`: year, month (from 1), day (from 1), hour,
/// minute and second.
pub open spec fn iso_parts(secs: u64) -> (int, int, int, int, int, int) {
    let (y, rem) = year_split((secs / 86400) as int, 1970);
    let (m, r) = month_split(rem, is_leap(y), 0);
    (y, m + 1, r + 1, ((secs % 86400) / 3600) as int, ((secs % 3600) / 60) as int, (secs % 60) as int)
}

/// The fields of `secs` name a real date and time, and give `secs` back.
pub proof fn lemma_iso_parts(secs: u64)
    ensures
        iso_parts(secs).0 >= 1970,
        1 <= iso_parts(secs).1 <= 12,
        1 <= iso_parts(secs).2 <= 31,
        0 <= iso_parts(secs).3 < 24,
        0 <= iso_parts(secs).4 < 60,
        0 <= iso_parts(secs).5 < 60,
        epoch_of(
            (
                iso_parts(secs).0 as u64,
                iso_parts(secs).1 as u64,
                iso_parts(secs).2 as u64,
                iso_parts(secs).3 as u64,
                iso_parts(secs).4 as u64,
                iso_parts(secs).5 as u64,
            ),
        ) == secs,
{
    let days = (secs / 86400) as int;
    lemma_year_split(days, 1970);
    let (y, rem) = year_split(days, 1970);
    let leap = is_leap(y);
    lemma_month_split(rem, leap, 0);
    let (m, r) = month_split(rem, leap, 0);
    lemma_year_months(leap);
    assert(months_before(0, leap) == 0);
    assert(m < 12) by {
        if m == 12 {
            assert(rem < year_len(y));
        }
    }
    assert(month_len(m, leap) <= 31);
    assert(y <= u64::MAX) by {
        crate::timefmt::lemma_days_mono(1970, y);
        assert(days_before_year(y) <= days);
        lemma_days_grow(y);
    }
    assert(days_before_year(1970) == 0);
    lemma_secs_split(secs);
}

/// Each year adds at least one day, so the year stays below the day count
/// past 1970.
proof fn lemma_days_grow(y: int)
    requires
        y >= 1970,
    ensures
        days_before_year(y) >= y - 1970,
    decreases y - 1970,
{
    if y > 1970 {
        lemma_days_grow(y - 1);
    }
}

// ---------------------------------------------------------------------------
// Byte searches over a timestamp's pieces
// ---------------------------------------------------------------------------

/// No byte of `s` is `x`.
pub open spec fn avoids(s: Seq<u8>, x: u8) -> bool {
    forall|i: int| 0 <= i < s.len() ==> #[trigger] s[i] != x
}

proof fn lemma_digits_avoid(s: Seq<u8>, x: u8)
    requires
        all_digit_bytes(s),
        x < 48 || x > 57,
    ensures
        avoids(s, x),
{
    assert forall|i: int| 0 <= i < s.len() implies #[trigger] s[i] != x by {
        assert(is_digit_byte(s[i]));
    }
}

proof fn lemma_last_index_none(s: Seq<u8>, c: u8)
    requires
        avoids(s, c),
    ensures
        last_index(s, c) == -1,
{
    lemma_last_index(s, c);
}

proof fn lemma_last_index_at(s: Seq<u8>, c: u8, i: int)
    requires
        0 <= i < s.len(),
        s[i] == c,
        forall|j: int| i < j < s.len() ==> #[trigger] s[j] != c,
    ensures
        last_index(s, c) == i,
{
    lemma_last_index(s, c);
}

proof fn lemma_first_index_at(s: Seq<u8>, c: u8, i: int)
    requires
        0 <= i < s.len(),
        s[i] == c,
        forall|j: int| 0 <= j < i ==> #[trigger] s[j] != c,
    ensures
        first_index(s, c) == i,
{
    lemma_first_index(s, c);
}

proof fn lemma_split_one(s: Seq<u8>, sep: u8)
    requires
        avoids(s, sep),
    ensures
        split_ranges(s, sep) == seq![(0int, s.len() as int)],
    decreases s.len(),
{
    if s.len() > 0 {
        let p = s.drop_last();
        assert(avoids(p, sep)) by {
            assert forall|i: int| 0 <= i < p.len() implies #[trigger] p[i] != sep by {
                assert(p[i] == s[i]);
            }
        }
        lemma_split_one(p, sep);
        assert(s.last() != sep);
        assert(seq![(0int, p.len() as int)].update(0, (0int, s.len() as int)) =~= seq![(0int, s.len() as int)]);
    }
}

proof fn lemma_split_extend(s: Seq<u8>, t: Seq<u8>, sep: u8)
    requires
        avoids(t, sep),
        split_ranges(s, sep).len() >= 1,
    ensures
        split_ranges(s + t, sep) == split_ranges(s, sep).update(
            split_ranges(s, sep).len() - 1,
            (split_ranges(s, sep).last().0, (s.len() + t.len()) as int),
        ),
        split_ranges(s + t, sep).len() == split_ranges(s, sep).len(),
    decreases t.len(),
{
    let p = split_ranges(s, sep);
    if t.len() == 0 {
        assert(s + t =~= s);
        crate::timefmt::lemma_split_ranges(s, sep);
        assert(p.last().1 == s.len()) by {
            lemma_split_last_end(s, sep);
        }
        assert(p.update(p.len() - 1, (p.last().0, s.len() as int)) =~= p);
    } else {
        let tl = t.drop_last();
        assert(avoids(tl, sep)) by {
            assert forall|i: int| 0 <= i < tl.len() implies #[trigger] tl[i] != sep by {
                assert(tl[i] == t[i]);
            }
        }
        lemma_split_extend(s, tl, sep);
        assert((s + t).drop_last() =~= s + tl);
        assert((s + t).last() == t.last());
        let q = split_ranges(s + tl, sep);
        assert(q.update(q.len() - 1, (q.last().0, (s.len() + t.len()) as int)) =~= p.update(
            p.len() - 1,
            (p.last().0, (s.len() + t.len()) as int),
        ));
    }
}

proof fn lemma_split_last_end(s: Seq<u8>, sep: u8)
    ensures
        split_ranges(s, sep).last().1 == s.len(),
    decreases s.len(),
{
    if s.len() > 0 {
        lemma_split_last_end(s.drop_last(), sep);
        crate::timefmt::lemma_split_ranges(s.drop_last(), sep);
    }
}

/// Three pieces between two separators.
proof fn lemma_split_three(p0: Seq<u8>, p1: Seq<u8>, p2: Seq<u8>, sep: u8)
    requires
        avoids(p0, sep),
        avoids(p1, sep),
        avoids(p2, sep),
    ensures
        split_ranges(p0 + seq![sep] + p1 + seq![sep] + p2, sep) == seq![
            (0int, p0.len() as int),
            ((p0.len() + 1) as int, (p0.len() + 1 + p1.len()) as int),
            ((p0.len() + p1.len() + 2) as int, (p0.len() + p1.len() + 2 + p2.len()) as int),
        ],
{
    let a = p0 + seq![sep];
    lemma_split_one(p0, sep);
    assert(a =~= p0.push(sep));
    assert(a.drop_last() =~= p0);
    let ra = split_ranges(a, sep);
    assert(ra == seq![(0int, p0.len() as int)].push(((p0.len() + 1) as int, (p0.len() + 1) as int)));
    lemma_split_extend(a, p1, sep);
    let b = a + p1 + seq![sep];
    assert(b =~= (a + p1).push(sep));
    assert(b.drop_last() =~= a + p1);
    lemma_split_extend(b, p2, sep);
    assert(split_ranges(b + p2, sep) =~= seq![
        (0int, p0.len() as int),
        ((p0.len() + 1) as int, (p0.len() + 1 + p1.len()) as int),
        ((p0.len() + p1.len() + 2) as int, (p0.len() + p1.len() + 2 + p2.len()) as int),
    ]);
}

/// Digits parse back as their value.
proof fn lemma_parse_digits(d: Seq<u8>)
    requires
        d.len() > 0,
        all_digit_bytes(d),
        digits_value(d) <= u64::MAX,
    ensures
        parse_u64_spec(d) == Some(digits_value(d) as u64),
{
    assert(is_digit_byte(d[0]));
}

// ---------------------------------------------------------------------------
// Reading the fields back
// ---------------------------------------------------------------------------

/// The bytes of `Y-M-DTH:N:SZ` from the bytes of its six numbers.
pub open spec fn iso_layout(yb: Seq<u8>, mb: Seq<u8>, db: Seq<u8>, hb: Seq<u8>, nb: Seq<u8>, sb: Seq<u8>) -> Seq<u8> {
    yb + seq![45u8] + mb + seq![45u8] + db + seq![84u8] + hb + seq![58u8] + nb + seq![58u8] + sb + seq![90u8]
}

proof fn lemma_no_sep_bytes(d: Seq<u8>)
    requires
        all_digit_bytes(d),
    ensures
        avoids(d, 43),
        avoids(d, 45),
        avoids(d, 46),
        avoids(d, 58),
        avoids(d, 84),
        avoids(d, 90),
{
    lemma_digits_avoid(d, 43);
    lemma_digits_avoid(d, 45);
    lemma_digits_avoid(d, 46);
    lemma_digits_avoid(d, 58);
    lemma_digits_avoid(d, 84);
    lemma_digits_avoid(d, 90);
}

/// The fields of a laid-out timestamp are its six numbers.
#[verifier::spinoff_prover]
#[verifier::rlimit(60)]
pub proof fn lemma_fields_of_layout(yb: Seq<u8>, mb: Seq<u8>, db: Seq<u8>, hb: Seq<u8>, nb: Seq<u8>, sb: Seq<u8>)
    requires
        yb.len() >= 1 && mb.len() >= 1 && db.len() >= 1 && hb.len() >= 1 && nb.len() >= 1 && sb.len() >= 1,
        yb.len() + mb.len() + 1 <= 10,
        all_digit_bytes(yb),
        all_digit_bytes(mb),
        all_digit_bytes(db),
        all_digit_bytes(hb),
        all_digit_bytes(nb),
        all_digit_bytes(sb),
        digits_value(yb) <= u64::MAX,
        digits_value(mb) <= u64::MAX,
        digits_value(db) <= u64::MAX,
        digits_value(hb) <= u64::MAX,
        digits_value(nb) <= u64::MAX,
        digits_value(sb) <= u64::MAX,
    ensures
        iso_fields(iso_layout(yb, mb, db, hb, nb, sb)) == Some(
            (
                digits_value(yb) as u64,
                digits_value(mb) as u64,
                digits_value(db) as u64,
                digits_value(hb) as u64,
                digits_value(nb) as u64,
                digits_value(sb) as u64,
            ),
        ),
{
    lemma_no_sep_bytes(yb);
    lemma_no_sep_bytes(mb);
    lemma_no_sep_bytes(db);
    lemma_no_sep_bytes(hb);
    lemma_no_sep_bytes(nb);
    lemma_no_sep_bytes(sb);
    let b = iso_layout(yb, mb, db, hb, nb, sb);
    let date = yb + seq![45u8] + mb + seq![45u8] + db;
    let time = hb + seq![58u8] + nb + seq![58u8] + sb;
    let c1 = date + seq![84u8] + time;
    assert(b =~= c1.push(90u8));
    let k = yb.len() as int;
    let dl = date.len() as int;
    // the trailing Z
    assert(b.drop_last() =~= c1);
    assert(c1.last() == sb.last());
    assert(is_digit_byte(sb[sb.len() - 1]));
    assert(strip_end(c1, 90) == c1);
    assert(strip_end(b, 90) == c1);
    // no offset sign past byte 10
    assert(avoids(c1, 43)) by {
        assert forall|i: int| 0 <= i < c1.len() implies #[trigger] c1[i] != 43u8 by {
            if i < yb.len() {
                assert(c1[i] == yb[i]);
            } else if i < yb.len() + 1 {
            } else if i < yb.len() + 1 + mb.len() {
                assert(c1[i] == mb[i - yb.len() - 1]);
            } else if i < yb.len() + 2 + mb.len() {
            } else if i < dl {
                assert(c1[i] == db[i - yb.len() - 2 - mb.len()]);
            } else if i == dl {
            } else if i < dl + 1 + hb.len() {
                assert(c1[i] == hb[i - dl - 1]);
            } else if i < dl + 2 + hb.len() {
            } else if i < dl + 2 + hb.len() + nb.len() {
                assert(c1[i] == nb[i - dl - 2 - hb.len()]);
            } else if i < dl + 3 + hb.len() + nb.len() {
            } else {
                assert(c1[i] == sb[i - dl - 3 - hb.len() - nb.len()]);
            }
        }
    }
    lemma_last_index_none(c1, 43);
    let m = (yb.len() + 1 + mb.len()) as int;
    assert(c1[m] == 45u8);
    assert forall|j: int| m < j < c1.len() implies #[trigger] c1[j] != 45u8 by {
        if j < dl {
            assert(c1[j] == db[j - m - 1]);
        } else if j == dl {
        } else if j < dl + 1 + hb.len() {
            assert(c1[j] == hb[j - dl - 1]);
        } else if j < dl + 2 + hb.len() {
        } else if j < dl + 2 + hb.len() + nb.len() {
            assert(c1[j] == nb[j - dl - 2 - hb.len()]);
        } else if j < dl + 3 + hb.len() + nb.len() {
        } else {
            assert(c1[j] == sb[j - dl - 3 - hb.len() - nb.len()]);
        }
    }
    lemma_last_index_at(c1, 45, m);
    assert(iso_clean(b) == c1);
    // the T
    assert(c1[dl] == 84u8);
    assert forall|j: int| 0 <= j < dl implies #[trigger] c1[j] != 84u8 by {
        if j < yb.len() {
            assert(c1[j] == yb[j]);
        } else if j < yb.len() + 1 {
        } else if j < m {
            assert(c1[j] == mb[j - yb.len() - 1]);
        } else if j == m {
        } else {
            assert(c1[j] == db[j - m - 1]);
        }
    }
    lemma_first_index_at(c1, 84, dl);
    assert(c1.take(dl) =~= date);
    assert(c1.skip(dl + 1) =~= time);
    // the pieces
    lemma_split_three(yb, mb, db, 45);
    lemma_split_three(hb, nb, sb, 58);
    let dp = split_ranges(date, 45);
    let tp = split_ranges(time, 58);
    assert(piece(date, dp[0]) =~= yb);
    assert(piece(date, dp[1]) =~= mb);
    assert(piece(date, dp[2]) =~= db);
    assert(piece(time, tp[0]) =~= hb);
    assert(piece(time, tp[1]) =~= nb);
    assert(piece(time, tp[2]) =~= sb);
    lemma_split_one(sb, 46);
    assert(piece(sb, split_ranges(sb, 46)[0]) =~= sb);
    lemma_parse_digits(yb);
    lemma_parse_digits(mb);
    lemma_parse_digits(db);
    lemma_parse_digits(hb);
    lemma_parse_digits(nb);
    lemma_parse_digits(sb);
}

// ---------------------------------------------------------------------------
// The round trip
// ---------------------------------------------------------------------------

proof fn lemma_ascii_concat(a: Seq<char>, b: Seq<char>)
    requires
        vstd::utf8::is_ascii_chars(a),
        vstd::utf8::is_ascii_chars(b),
    ensures
        vstd::utf8::is_ascii_chars(a + b),
        ascii_bytes(a + b) == ascii_bytes(a) + ascii_bytes(b),
{
    assert forall|i: int| 0 <= i < (a + b).len() implies '\0' <= #[trigger] (a + b)[i] <= '\u{7f}' by {
        if i < a.len() {
            assert((a + b)[i] == a[i]);
        } else {
            assert((a + b)[i] == b[i - a.len()]);
        }
    }
    assert(ascii_bytes(a + b) =~= ascii_bytes(a) + ascii_bytes(b));
}

proof fn lemma_digits_ascii(s: Seq<char>)
    requires
        digit_chars(s),
    ensures
        vstd::utf8::is_ascii_chars(s),
        all_digit_bytes(ascii_bytes(s)),
{
    lemma_digit_bytes(s);
    assert forall|i: int| 0 <= i < s.len() implies '\0' <= #[trigger] s[i] <= '\u{7f}' by {
        assert('0' <= s[i] <= '9');
    }
}

proof fn lemma_one_char(c: char, s: Seq<char>)
    requires
        s == seq![c],
        '\0' <= c <= '\u{7f}',
    ensures
        vstd::utf8::is_ascii_chars(s),
        ascii_bytes(s) == seq![c as u8],
{
    assert(ascii_bytes(s) =~= seq![c as u8]);
}

/// A number below 100, zero-padded to two digits.
proof fn lemma_two_digits(n: nat)
    requires
        n < 100,
    ensures
        zero_pad(dec(n), 2).len() == 2,
        digit_chars(zero_pad(dec(n), 2)),
        digits_value(ascii_bytes(zero_pad(dec(n), 2))) == n,
{
    reveal_with_fuel(pow10, 3);
    lemma_dec_len_le(n, 2);
    lemma_padded_value(n, 2);
    lemma_dec_value(n);
}

/// A timestamp written for `secs` reads back as `secs`, for every moment
/// whose year has at most seven digits (a longer year puts a `-` where the
/// reader takes it for a time-zone offset).
pub proof fn law_iso_round_trip(secs: u64)
    requires
        iso_parts(secs).0 < 10_000_000,
    ensures
        iso_epoch(vstd::utf8::encode_utf8(iso_text(secs))) == Some(secs),
{
    lemma_iso_parts(secs);
    let p = iso_parts(secs);
    let (y, mo, d, h, mi, s) = p;
    let yc = zero_pad(dec(y as nat), 4);
    let mc = zero_pad(dec(mo as nat), 2);
    let dc = zero_pad(dec(d as nat), 2);
    let hc = zero_pad(dec(h as nat), 2);
    let nc = zero_pad(dec(mi as nat), 2);
    let sc = zero_pad(dec(s as nat), 2);
    reveal_with_fuel(pow10, 8);
    lemma_dec_len_gt(y as nat, 3);
    lemma_dec_len_le(y as nat, 7);
    lemma_padded_value(y as nat, 4);
    lemma_two_digits(mo as nat);
    lemma_two_digits(d as nat);
    lemma_two_digits(h as nat);
    lemma_two_digits(mi as nat);
    lemma_two_digits(s as nat);
    reveal_strlit("-");
    reveal_strlit("T");
    reveal_strlit(":");
    reveal_strlit("Z");
    let t = iso_text(secs);
    assert(t == yc + "-"@ + mc + "-"@ + dc + "T"@ + hc + ":"@ + nc + ":"@ + sc + "Z"@);
    lemma_digits_ascii(yc);
    lemma_digits_ascii(mc);
    lemma_digits_ascii(dc);
    lemma_digits_ascii(hc);
    lemma_digits_ascii(nc);
    lemma_digits_ascii(sc);
    assert("-"@ =~= seq!['-']);
    assert("T"@ =~= seq!['T']);
    assert(":"@ =~= seq![':']);
    assert("Z"@ =~= seq!['Z']);
    lemma_one_char('-', "-"@);
    lemma_one_char('T', "T"@);
    lemma_one_char(':', ":"@);
    lemma_one_char('Z', "Z"@);
    let t1 = yc + "-"@;
    lemma_ascii_concat(yc, "-"@);
    let t2 = t1 + mc;
    lemma_ascii_concat(t1, mc);
    let t3 = t2 + "-"@;
    lemma_ascii_concat(t2, "-"@);
    let t4 = t3 + dc;
    lemma_ascii_concat(t3, dc);
    let t5 = t4 + "T"@;
    lemma_ascii_concat(t4, "T"@);
    let t6 = t5 + hc;
    lemma_ascii_concat(t5, hc);
    let t7 = t6 + ":"@;
    lemma_ascii_concat(t6, ":"@);
    let t8 = t7 + nc;
    lemma_ascii_concat(t7, nc);
    let t9 = t8 + ":"@;
    lemma_ascii_concat(t8, ":"@);
    let t10 = t9 + sc;
    lemma_ascii_concat(t9, sc);
    let t11 = t10 + "Z"@;
    lemma_ascii_concat(t10, "Z"@);
    assert(t == t11);
    vstd::utf8::is_ascii_chars_encode_utf8(t);
    assert(vstd::utf8::encode_utf8(t) =~= ascii_bytes(t));
    let yb = ascii_bytes(yc);
    let mb = ascii_bytes(mc);
    let db = ascii_bytes(dc);
    let hb = ascii_bytes(hc);
    let nb = ascii_bytes(nc);
    let sb = ascii_bytes(sc);
    assert(ascii_bytes(t) =~= iso_layout(yb, mb, db, hb, nb, sb));
    lemma_fields_of_layout(yb, mb, db, hb, nb, sb);
}

/// `YYYY-MM-DDTHH:MM:SSZ`: twenty characters, the separators in their
/// places and decimal digits everywhere else.
pub open spec fn iso_shape(t: Seq<char>) -> bool {
    &&& t.len() == 20
    &&& t[4] == '-' && t[7] == '-' && t[10] == 'T' && t[13] == ':' && t[16] == ':' && t[19] == 'Z'
    &&& forall|i: int|
        0 <= i < 20 && i != 4 && i != 7 && i != 10 && i != 13 && i != 16 && i != 19 ==> '0' <= #[trigger] t[i]
            <= '9'
}

/// The text written for `secs`, for every year below 10000, is twenty
/// characters in the fixed zero-padded form, its six digit groups are the
/// calendar fields of `secs`, and it reads back as `secs`.
pub proof fn law_iso_text_shape(secs: u64)
    requires
        iso_parts(secs).0 < 10000,
    ensures
        iso_shape(iso_text(secs)),
        digits_value(ascii_bytes(iso_text(secs).subrange(0, 4))) == iso_parts(secs).0,
        digits_value(ascii_bytes(iso_text(secs).subrange(5, 7))) == iso_parts(secs).1,
        digits_value(ascii_bytes(iso_text(secs).subrange(8, 10))) == iso_parts(secs).2,
        digits_value(ascii_bytes(iso_text(secs).subrange(11, 13))) == iso_parts(secs).3,
        digits_value(ascii_bytes(iso_text(secs).subrange(14, 16))) == iso_parts(secs).4,
        digits_value(ascii_bytes(iso_text(secs).subrange(17, 19))) == iso_parts(secs).5,
        iso_epoch(vstd::utf8::encode_utf8(iso_text(secs))) == Some(secs),
{
    lemma_iso_parts(secs);
    law_iso_round_trip(secs);
    let p = iso_parts(secs);
    let (y, mo, d, h, mi, s) = p;
    let yc = zero_pad(dec(y as nat), 4);
    let mc = zero_pad(dec(mo as nat), 2);
    let dc = zero_pad(dec(d as nat), 2);
    let hc = zero_pad(dec(h as nat), 2);
    let nc = zero_pad(dec(mi as nat), 2);
    let sc = zero_pad(dec(s as nat), 2);
    reveal_with_fuel(pow10, 5);
    lemma_dec_len_gt(y as nat, 3);
    lemma_dec_len_le(y as nat, 4);
    lemma_padded_value(y as nat, 4);
    lemma_two_digits(mo as nat);
    lemma_two_digits(d as nat);
    lemma_two_digits(h as nat);
    lemma_two_digits(mi as nat);
    lemma_two_digits(s as nat);
    reveal_strlit("-");
    reveal_strlit("T");
    reveal_strlit(":");
    reveal_strlit("Z");
    let t = iso_text(secs);
    assert(t =~= yc + seq!['-'] + mc + seq!['-'] + dc + seq!['T'] + hc + seq![':'] + nc + seq![':'] + sc + seq!['Z']);
    assert(t.len() == 20);
    assert(t.subrange(0, 4) =~= yc);
    assert(t.subrange(5, 7) =~= mc);
    assert(t.subrange(8, 10) =~= dc);
    assert(t.subrange(11, 13) =~= hc);
    assert(t.subrange(14, 16) =~= nc);
    assert(t.subrange(17, 19) =~= sc);
    assert forall|i: int|
        0 <= i < 20 && i != 4 && i != 7 && i != 10 && i != 13 && i != 16 && i != 19 implies '0' <= #[trigger] t[i]
            <= '9' by {
        if i < 4 {
            assert(t[i] == t.subrange(0, 4)[i]);
        } else if i < 7 {
            assert(t[i] == t.subrange(5, 7)[i - 5]);
        } else if i < 10 {
            assert(t[i] == t.subrange(8, 10)[i - 8]);
        } else if i < 13 {
            assert(t[i] == t.subrange(11, 13)[i - 11]);
        } else if i < 16 {
            assert(t[i] == t.subrange(14, 16)[i - 14]);
        } else {
            assert(t[i] == t.subrange(17, 19)[i - 17]);
        }
    }
}

// ---------------------------------------------------------------------------
// Suffixes a reader drops
// ---------------------------------------------------------------------------

/// The bytes of `Y-M-DTH:N:S` from the bytes of its six numbers, with no
/// zone suffix.
pub open spec fn iso_core(yb: Seq<u8>, mb: Seq<u8>, db: Seq<u8>, hb: Seq<u8>, nb: Seq<u8>, sb: Seq<u8>) -> Seq<u8> {
    yb + seq![45u8] + mb + seq![45u8] + db + seq![84u8] + hb + seq![58u8] + nb + seq![58u8] + sb
}

/// The fields a well-formed `YYYY-MM-DDTHH:MM:SS` stands for: four year
/// digits and two digits for each other field.
pub open spec fn iso_core_form(yb: Seq<u8>, mb: Seq<u8>, db: Seq<u8>, hb: Seq<u8>, nb: Seq<u8>, sb: Seq<u8>) -> bool {
    &&& yb.len() == 4 && mb.len() == 2 && db.len() == 2 && hb.len() == 2 && nb.len() == 2 && sb.len() == 2
    &&& all_digit_bytes(yb) && all_digit_bytes(mb) && all_digit_bytes(db)
    &&& all_digit_bytes(hb) && all_digit_bytes(nb) && all_digit_bytes(sb)
}

proof fn lemma_avoids_concat(a: Seq<u8>, b: Seq<u8>, x: u8)
    requires
        avoids(a, x),
        avoids(b, x),
    ensures
        avoids(a + b, x),
{
    assert forall|i: int| 0 <= i < (a + b).len() implies #[trigger] (a + b)[i] != x by {
        if i < a.len() {
            assert((a + b)[i] == a[i]);
        } else {
            assert((a + b)[i] == b[i - a.len()]);
        }
    }
}

proof fn lemma_avoids_one(y: u8, x: u8)
    requires
        y != x,
    ensures
        avoids(seq![y], x),
{
}

/// A byte that is no digit and none of the core's separators occurs nowhere
/// in the core.
proof fn lemma_core_avoids(yb: Seq<u8>, mb: Seq<u8>, db: Seq<u8>, hb: Seq<u8>, nb: Seq<u8>, sb: Seq<u8>, x: u8)
    requires
        iso_core_form(yb, mb, db, hb, nb, sb),
        x < 48 || x > 57,
        x != 45 && x != 84 && x != 58,
    ensures
        avoids(iso_core(yb, mb, db, hb, nb, sb), x),
{
    lemma_digits_avoid(yb, x);
    lemma_digits_avoid(mb, x);
    lemma_digits_avoid(db, x);
    lemma_digits_avoid(hb, x);
    lemma_digits_avoid(nb, x);
    lemma_digits_avoid(sb, x);
    lemma_avoids_one(45, x);
    lemma_avoids_one(84, x);
    lemma_avoids_one(58, x);
    let d = seq![45u8];
    let t = seq![84u8];
    let c = seq![58u8];
    lemma_avoids_concat(yb, d, x);
    lemma_avoids_concat(yb + d, mb, x);
    lemma_avoids_concat(yb + d + mb, d, x);
    lemma_avoids_concat(yb + d + mb + d, db, x);
    lemma_avoids_concat(yb + d + mb + d + db, t, x);
    lemma_avoids_concat(yb + d + mb + d + db + t, hb, x);
    lemma_avoids_concat(yb + d + mb + d + db + t + hb, c, x);
    lemma_avoids_concat(yb + d + mb + d + db + t + hb + c, nb, x);
    lemma_avoids_concat(yb + d + mb + d + db + t + hb + c + nb, c, x);
    lemma_avoids_concat(yb + d + mb + d + db + t + hb + c + nb + c, sb, x);
}

/// Bytes after the last `c` leave its index where it was.
proof fn lemma_last_index_append(a: Seq<u8>, b: Seq<u8>, c: u8)
    requires
        avoids(b, c),
    ensures
        last_index(a + b, c) == last_index(a, c),
    decreases b.len(),
{
    if b.len() == 0 {
        assert(a + b =~= a);
    } else {
        let bl = b.drop_last();
        assert(avoids(bl, c)) by {
            assert forall|i: int| 0 <= i < bl.len() implies #[trigger] bl[i] != c by {
                assert(bl[i] == b[i]);
            }
        }
        lemma_last_index_append(a, bl, c);
        assert((a + b).drop_last() =~= a + bl);
        assert((a + b).last() == b[b.len() - 1]);
    }
}

/// Bytes after the first `c` leave its index where it was.
proof fn lemma_first_index_prefix(a: Seq<u8>, b: Seq<u8>, c: u8)
    requires
        first_index(a, c) >= 0,
    ensures
        first_index(a + b, c) == first_index(a, c),
    decreases b.len(),
{
    if b.len() == 0 {
        assert(a + b =~= a);
    } else {
        lemma_first_index_prefix(a, b.drop_last(), c);
        assert((a + b).drop_last() =~= a + b.drop_last());
    }
}

/// The core with a tail of no zone bytes cleans to itself.
proof fn lemma_clean_core_tail(yb: Seq<u8>, mb: Seq<u8>, db: Seq<u8>, hb: Seq<u8>, nb: Seq<u8>, sb: Seq<u8>, tail: Seq<u8>)
    requires
        iso_core_form(yb, mb, db, hb, nb, sb),
        avoids(tail, 43),
        avoids(tail, 45),
        avoids(tail, 90),
    ensures
        iso_clean(iso_core(yb, mb, db, hb, nb, sb) + tail) == iso_core(yb, mb, db, hb, nb, sb) + tail,
{
    let core = iso_core(yb, mb, db, hb, nb, sb);
    let x = core + tail;
    lemma_core_avoids(yb, mb, db, hb, nb, sb, 43);
    lemma_core_avoids(yb, mb, db, hb, nb, sb, 90);
    lemma_avoids_concat(core, tail, 43);
    lemma_avoids_concat(core, tail, 90);
    assert(x.last() != 90u8) by {
        assert(x[x.len() - 1] != 90u8);
    }
    assert(strip_end(x, 90) == x);
    lemma_last_index_none(x, 43);
    // the last `-` is the one after the month
    let head = yb + seq![45u8] + mb + seq![45u8];
    let rest = db + seq![84u8] + hb + seq![58u8] + nb + seq![58u8] + sb + tail;
    assert(x =~= head + rest);
    lemma_digits_avoid(db, 45);
    lemma_digits_avoid(hb, 45);
    lemma_digits_avoid(nb, 45);
    lemma_digits_avoid(sb, 45);
    lemma_avoids_one(84, 45);
    lemma_avoids_one(58, 45);
    lemma_avoids_concat(db, seq![84u8], 45);
    lemma_avoids_concat(db + seq![84u8], hb, 45);
    lemma_avoids_concat(db + seq![84u8] + hb, seq![58u8], 45);
    lemma_avoids_concat(db + seq![84u8] + hb + seq![58u8], nb, 45);
    lemma_avoids_concat(db + seq![84u8] + hb + seq![58u8] + nb, seq![58u8], 45);
    lemma_avoids_concat(db + seq![84u8] + hb + seq![58u8] + nb + seq![58u8], sb, 45);
    lemma_avoids_concat(db + seq![84u8] + hb + seq![58u8] + nb + seq![58u8] + sb, tail, 45);
    lemma_last_index_append(head, rest, 45);
    assert(head.last() == 45u8);
    assert(last_index(head, 45) == 7);
}

/// A trailing `Z` is dropped before anything else is read.
proof fn lemma_clean_z(s: Seq<u8>)
    ensures
        iso_clean(s.push(90)) == iso_clean(s),
{
    assert(s.push(90).drop_last() =~= s);
    assert(strip_end(s.push(90), 90) == strip_end(s, 90));
}

/// A `+hh:mm` or `-hh:mm` offset after the core is cut off.
proof fn lemma_clean_offset(yb: Seq<u8>, mb: Seq<u8>, db: Seq<u8>, hb: Seq<u8>, nb: Seq<u8>, sb: Seq<u8>, sign: u8, oh: Seq<u8>, om: Seq<u8>)
    requires
        iso_core_form(yb, mb, db, hb, nb, sb),
        sign == 43 || sign == 45,
        om.len() >= 1,
        all_digit_bytes(oh),
        all_digit_bytes(om),
    ensures
        iso_clean(iso_core(yb, mb, db, hb, nb, sb) + seq![sign] + oh + seq![58u8] + om) == iso_core(yb, mb, db, hb, nb, sb),
{
    let core = iso_core(yb, mb, db, hb, nb, sb);
    let zone = oh + seq![58u8] + om;
    let x = core + seq![sign] + oh + seq![58u8] + om;
    let a = core.push(sign);
    assert(x =~= a + zone);
    assert(core.len() == 19);
    assert(x.last() == om[om.len() - 1]);
    assert(is_digit_byte(om[om.len() - 1]));
    assert(strip_end(x, 90) == x);
    lemma_digits_avoid(oh, 43);
    lemma_digits_avoid(om, 43);
    lemma_digits_avoid(oh, 45);
    lemma_digits_avoid(om, 45);
    lemma_avoids_one(58, 43);
    lemma_avoids_one(58, 45);
    lemma_avoids_concat(oh, seq![58u8], 43);
    lemma_avoids_concat(oh + seq![58u8], om, 43);
    lemma_avoids_concat(oh, seq![58u8], 45);
    lemma_avoids_concat(oh + seq![58u8], om, 45);
    assert(a.drop_last() =~= core);
    lemma_last_index_append(a, zone, sign);
    assert(last_index(a, sign) == 19);
    if sign == 45 {
        lemma_core_avoids(yb, mb, db, hb, nb, sb, 43);
        lemma_avoids_one(45, 43);
        lemma_avoids_concat(core, seq![45u8], 43);
        assert(a =~= core + seq![45u8]);
        lemma_avoids_concat(a, zone, 43);
        lemma_last_index_none(x, 43);
    }
    assert(x.take(19) =~= core);
}

/// The fields read from a cleaned text that is the core and a tail whose
/// first piece before a `.` is no longer than the seconds.
#[verifier::rlimit(40)]
proof fn lemma_fields_of_clean(x: Seq<u8>, yb: Seq<u8>, mb: Seq<u8>, db: Seq<u8>, hb: Seq<u8>, nb: Seq<u8>, sb: Seq<u8>, tail: Seq<u8>)
    requires
        iso_core_form(yb, mb, db, hb, nb, sb),
        avoids(tail, 84),
        avoids(tail, 58),
        split_ranges(sb + tail, 46)[0] == (0int, sb.len() as int),
        iso_clean(x) == iso_core(yb, mb, db, hb, nb, sb) + tail,
    ensures
        iso_fields(x) == Some(
            (
                digits_value(yb) as u64,
                digits_value(mb) as u64,
                digits_value(db) as u64,
                digits_value(hb) as u64,
                digits_value(nb) as u64,
                digits_value(sb) as u64,
            ),
        ),
{
    lemma_no_sep_bytes(yb);
    lemma_no_sep_bytes(mb);
    lemma_no_sep_bytes(db);
    lemma_no_sep_bytes(hb);
    lemma_no_sep_bytes(nb);
    lemma_no_sep_bytes(sb);
    crate::launcher::lemma_digits_bound(yb);
    crate::launcher::lemma_digits_bound(mb);
    crate::launcher::lemma_digits_bound(db);
    crate::launcher::lemma_digits_bound(hb);
    crate::launcher::lemma_digits_bound(nb);
    crate::launcher::lemma_digits_bound(sb);
    reveal_with_fuel(pow10, 5);
    let c = iso_clean(x);
    let date = yb + seq![45u8] + mb + seq![45u8] + db;
    let st = sb + tail;
    let time = hb + seq![58u8] + nb + seq![58u8] + st;
    let dt = date.push(84u8);
    assert(c =~= dt + time);
    let dl = date.len() as int;
    // the T
    lemma_avoids_one(45, 84);
    lemma_avoids_concat(yb, seq![45u8], 84);
    lemma_avoids_concat(yb + seq![45u8], mb, 84);
    lemma_avoids_concat(yb + seq![45u8] + mb, seq![45u8], 84);
    lemma_avoids_concat(yb + seq![45u8] + mb + seq![45u8], db, 84);
    assert forall|j: int| 0 <= j < dl implies #[trigger] dt[j] != 84u8 by {
        assert(dt[j] == date[j]);
    }
    lemma_first_index_at(dt, 84, dl);
    lemma_first_index_prefix(dt, time, 84);
    assert(c.take(dl) =~= date);
    assert(c.skip(dl + 1) =~= time);
    // the pieces
    lemma_avoids_concat(sb, tail, 58);
    lemma_split_three(yb, mb, db, 45);
    lemma_split_three(hb, nb, st, 58);
    let dp = split_ranges(date, 45);
    let tp = split_ranges(time, 58);
    assert(piece(date, dp[0]) =~= yb);
    assert(piece(date, dp[1]) =~= mb);
    assert(piece(date, dp[2]) =~= db);
    assert(piece(time, tp[0]) =~= hb);
    assert(piece(time, tp[1]) =~= nb);
    assert(piece(time, tp[2]) =~= st);
    assert(piece(st, split_ranges(st, 46)[0]) =~= sb);
    lemma_parse_digits(yb);
    lemma_parse_digits(mb);
    lemma_parse_digits(db);
    lemma_parse_digits(hb);
    lemma_parse_digits(nb);
    lemma_parse_digits(sb);
}

/// The part of the seconds before a `.` and its digits.
proof fn lemma_split_fraction(sb: Seq<u8>, frac: Seq<u8>)
    requires
        all_digit_bytes(sb),
        all_digit_bytes(frac),
    ensures
        split_ranges(sb + (seq![46u8] + frac), 46)[0] == (0int, sb.len() as int),
{
    lemma_digits_avoid(sb, 46);
    lemma_digits_avoid(frac, 46);
    lemma_split_one(sb, 46);
    let a = sb.push(46u8);
    assert(a.drop_last() =~= sb);
    assert(split_ranges(a, 46) == seq![(0int, sb.len() as int)].push((a.len() as int, a.len() as int)));
    lemma_split_extend(a, frac, 46);
    assert(sb + (seq![46u8] + frac) =~= a + frac);
}

/// Days before a year grow by at most 366 a year.
proof fn lemma_days_before_bound(y: int)
    requires
        y >= 1970,
    ensures
        days_before_year(y) <= 366 * (y - 1970),
    decreases y - 1970,
{
    if y > 1970 {
        lemma_days_before_bound(y - 1);
    }
}

/// Days in the first `k` months are at most 31 each.
proof fn lemma_months_before_bound(k: int, leap: bool)
    requires
        k >= 0,
    ensures
        months_before(k, leap) <= 31 * k,
    decreases k,
{
    if k > 0 {
        lemma_months_before_bound(k - 1, leap);
    }
}

/// The seconds of any fields of at most four year digits and two digits
/// elsewhere fit in `u64`.
proof fn lemma_small_epoch_fits(f: (u64, u64, u64, u64, u64, u64))
    requires
        f.0 <= 9999,
        f.1 <= 99,
        f.2 <= 99,
        f.3 <= 99,
        f.4 <= 99,
        f.5 <= 99,
    ensures
        0 <= epoch_of(f) <= u64::MAX,
{
    let (y, mo, d, h, mi, s) = f;
    crate::timefmt::lemma_epoch_nonneg(f);
    if y >= 1970 {
        lemma_days_before_bound(y as int);
    }
    let k: int = if mo >= 1 { mo - 1 } else { 0 };
    lemma_months_before_bound(k, is_leap(y as int));
    let days = days_before_year(y as int) + months_before(k, is_leap(y as int)) + (if d >= 1 { d - 1 } else { 0 });
    assert(days <= 366 * 8029 + 31 * 98 + 98);
    assert(days * 86400 + h * 3600 + mi * 60 + s <= 300_000_000_000) by (nonlinear_arith)
        requires
            days <= 366 * 8029 + 31 * 98 + 98,
            h <= 99,
            mi <= 99,
            s <= 99,
    ;
}

/// A well-formed `YYYY-MM-DDTHH:MM:SS` reads as the same seconds, and as
/// some seconds, with a trailing `Z`, with a `+hh:mm` or `-hh:mm` offset,
/// with fractional seconds, and with fractional seconds and a `Z`: the
/// reader drops the offset and the fraction rather than applying them.
pub proof fn law_iso_suffixes_ignored(
    yb: Seq<u8>,
    mb: Seq<u8>,
    db: Seq<u8>,
    hb: Seq<u8>,
    nb: Seq<u8>,
    sb: Seq<u8>,
    oh: Seq<u8>,
    om: Seq<u8>,
    frac: Seq<u8>,
)
    requires
        iso_core_form(yb, mb, db, hb, nb, sb),
        oh.len() == 2 && om.len() == 2 && all_digit_bytes(oh) && all_digit_bytes(om),
        frac.len() >= 1 && all_digit_bytes(frac),
    ensures
        ({
            let b = iso_core(yb, mb, db, hb, nb, sb);
            &&& iso_fields(b) == Some(
                (
                    digits_value(yb) as u64,
                    digits_value(mb) as u64,
                    digits_value(db) as u64,
                    digits_value(hb) as u64,
                    digits_value(nb) as u64,
                    digits_value(sb) as u64,
                ),
            )
            &&& iso_epoch(b) is Some
            &&& iso_epoch(b.push(90u8)) == iso_epoch(b)
            &&& iso_epoch(b + seq![43u8] + oh + seq![58u8] + om) == iso_epoch(b)
            &&& iso_epoch(b + seq![45u8] + oh + seq![58u8] + om) == iso_epoch(b)
            &&& iso_epoch(b + seq![46u8] + frac) == iso_epoch(b)
            &&& iso_epoch((b + seq![46u8] + frac).push(90u8)) == iso_epoch(b)
        }),
{
    let b = iso_core(yb, mb, db, hb, nb, sb);
    let e = Seq::<u8>::empty();
    let ft = seq![46u8] + frac;
    // the plain text
    assert(b + e =~= b);
    assert(sb + e =~= sb);
    lemma_digits_avoid(sb, 46);
    lemma_split_one(sb, 46);
    lemma_clean_core_tail(yb, mb, db, hb, nb, sb, e);
    lemma_fields_of_clean(b, yb, mb, db, hb, nb, sb, e);
    // with a Z
    lemma_clean_z(b);
    lemma_fields_of_clean(b.push(90u8), yb, mb, db, hb, nb, sb, e);
    // with an offset
    lemma_clean_offset(yb, mb, db, hb, nb, sb, 43, oh, om);
    lemma_fields_of_clean(b + seq![43u8] + oh + seq![58u8] + om, yb, mb, db, hb, nb, sb, e);
    lemma_clean_offset(yb, mb, db, hb, nb, sb, 45, oh, om);
    lemma_fields_of_clean(b + seq![45u8] + oh + seq![58u8] + om, yb, mb, db, hb, nb, sb, e);
    // with a fraction
    lemma_digits_avoid(frac, 43);
    lemma_digits_avoid(frac, 45);
    lemma_digits_avoid(frac, 90);
    lemma_digits_avoid(frac, 84);
    lemma_digits_avoid(frac, 58);
    lemma_avoids_one(46, 43);
    lemma_avoids_one(46, 45);
    lemma_avoids_one(46, 90);
    lemma_avoids_one(46, 84);
    lemma_avoids_one(46, 58);
    lemma_avoids_concat(seq![46u8], frac, 43);
    lemma_avoids_concat(seq![46u8], frac, 45);
    lemma_avoids_concat(seq![46u8], frac, 90);
    lemma_avoids_concat(seq![46u8], frac, 84);
    lemma_avoids_concat(seq![46u8], frac, 58);
    lemma_split_fraction(sb, frac);
    assert(b + seq![46u8] + frac =~= b + ft);
    lemma_clean_core_tail(yb, mb, db, hb, nb, sb, ft);
    lemma_fields_of_clean(b + ft, yb, mb, db, hb, nb, sb, ft);
    lemma_clean_z(b + ft);
    lemma_fields_of_clean((b + ft).push(90u8), yb, mb, db, hb, nb, sb, ft);
    // the seconds fit
    crate::launcher::lemma_digits_bound(yb);
    crate::launcher::lemma_digits_bound(mb);
    crate::launcher::lemma_digits_bound(db);
    crate::launcher::lemma_digits_bound(hb);
    crate::launcher::lemma_digits_bound(nb);
    crate::launcher::lemma_digits_bound(sb);
    reveal_with_fuel(pow10, 5);
    lemma_small_epoch_fits(
        (
            digits_value(yb) as u64,
            digits_value(mb) as u64,
            digits_value(db) as u64,
            digits_value(hb) as u64,
            digits_value(nb) as u64,
            digits_value(sb) as u64,
        ),
    );
}

// ---------------------------------------------------------------------------
// Counter ids
// ---------------------------------------------------------------------------

/// The value of a lowercase hex digit.
pub open spec fn hex_digit_value(c: char) -> nat {
    if '0' <= c <= '9' {
        (c as u32 - 48) as nat
    } else if 'a' <= c <= 'f' {
        (c as u32 - 87) as nat
    } else {
        0
    }
}

/// The value of a run of lowercase hex digits.
pub open spec fn hex_value(s: Seq<char>) -> nat
    decreases s.len(),
{
    if s.len() == 0 {
        0
    } else {
        hex_value(s.drop_last()) * 16 + hex_digit_value(s.last())
    }
}

proof fn lemma_hex_digit_char(d: nat)
    requires
        d < 16,
    ensures
        hex_digit_value(digit_char(d)) == d,
{
    if d == 0 {
    } else if d == 1 {
    } else if d == 2 {
    } else if d == 3 {
    } else if d == 4 {
    } else if d == 5 {
    } else if d == 6 {
    } else if d == 7 {
    } else if d == 8 {
    } else if d == 9 {
    } else if d == 10 {
    } else if d == 11 {
    } else if d == 12 {
    } else if d == 13 {
    } else if d == 14 {
    } else {
    }
}

proof fn lemma_hex_digits_value(n: nat)
    ensures
        hex_value(base_digits(n, 16)) == n,
    decreases n,
{
    let s = base_digits(n, 16);
    if n < 16 {
        lemma_hex_digit_char(n);
        assert(s == seq![digit_char(n)]);
        assert(s.drop_last() =~= Seq::<char>::empty());
        assert(s.last() == digit_char(n));
        assert(hex_value(s) == hex_value(s.drop_last()) * 16 + hex_digit_value(s.last()));
        assert(hex_value(s.drop_last()) == 0);
    } else {
        let q = n / 16;
        lemma_hex_digits_value(q);
        lemma_hex_digit_char(n % 16);
        assert(s == base_digits(q, 16).push(digit_char(n % 16)));
        assert(s.drop_last() =~= base_digits(q, 16));
        assert(hex_value(s) == hex_value(s.drop_last()) * 16 + hex_digit_value(s.last()));
        assert(n == q * 16 + n % 16);
    }
}

proof fn lemma_hex_leading_zeros(k: nat, t: Seq<char>)
    ensures
        hex_value(Seq::new(k, |_i: int| '0') + t) == hex_value(t),
    decreases t.len(),
{
    let z = Seq::new(k, |_i: int| '0');
    if t.len() == 0 {
        assert(z + t =~= z);
        lemma_hex_zeros(k);
    } else {
        lemma_hex_leading_zeros(k, t.drop_last());
        assert((z + t).drop_last() =~= z + t.drop_last());
        assert((z + t).last() == t.last());
    }
}

proof fn lemma_hex_zeros(k: nat)
    ensures
        hex_value(Seq::new(k, |_i: int| '0')) == 0,
    decreases k,
{
    if k > 0 {
        lemma_hex_zeros((k - 1) as nat);
        let z = Seq::new(k, |_i: int| '0');
        assert(z.drop_last() =~= Seq::new((k - 1) as nat, |_i: int| '0'));
        assert(z.last() == '0');
    }
}

/// The hex part of an id reads back as the counter value.
pub proof fn lemma_hex_id_value(prefix: Seq<char>, n: u64)
    ensures
        hex_id(prefix, n).subrange(prefix.len() as int, hex_id(prefix, n).len() as int) == zero_pad(
            base_digits(n as nat, 16),
            6,
        ),
        hex_value(zero_pad(base_digits(n as nat, 16), 6)) == n,
{
    let h = base_digits(n as nat, 16);
    assert(hex_id(prefix, n).subrange(prefix.len() as int, hex_id(prefix, n).len() as int) =~= zero_pad(h, 6));
    lemma_hex_digits_value(n as nat);
    if h.len() < 6 {
        lemma_hex_leading_zeros((6 - h.len()) as nat, h);
    }
}

/// Ids made with one prefix from different counter values differ, so ids
/// allocated from a counter that only moves forward never repeat.
pub proof fn law_hex_ids_distinct(prefix: Seq<char>, a: u64, b: u64)
    requires
        a != b,
    ensures
        hex_id(prefix, a) != hex_id(prefix, b),
{
    lemma_hex_id_value(prefix, a);
    lemma_hex_id_value(prefix, b);
    if hex_id(prefix, a) == hex_id(prefix, b) {
        assert(zero_pad(base_digits(a as nat, 16), 6) == zero_pad(base_digits(b as nat, 16), 6));
    }
}

} // verus!
