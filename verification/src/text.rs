//! Character-sequence helpers shared by the rest of the library.
//!
//! Strings are modelled by their `Seq<char>` view. Text that the library
//! builds is accumulated in a `Vec<char>` and turned into a `String` once.
use vstd::prelude::*;

verus! {

// ---------------------------------------------------------------------------
// Names for std's Unicode tables
// ---------------------------------------------------------------------------

/// The full Unicode lowercase mapping that `str::to_lowercase` applies.
pub uninterp spec fn lowercase_of(s: Seq<char>) -> Seq<char>;

/// The Unicode `Alphabetic | Numeric` property that `char::is_alphanumeric` tests.
pub uninterp spec fn alphanumeric_char(c: char) -> bool;

/// The text that `{:?}` writes for a string: quoted and escaped.
pub uninterp spec fn debug_quoted(s: Seq<char>) -> Seq<char>;

/// `str::to_lowercase`: the Unicode lowercase mapping of the whole string.
#[verifier::external_body]
pub(crate) fn to_lowercase(s: &str) -> (res: String)
    ensures
        res@ == lowercase_of(s@),
{
    s.to_lowercase()
}

/// `char::is_alphanumeric`: the Unicode alphabetic-or-numeric property.
#[verifier::external_body]
pub(crate) fn is_alphanumeric(c: char) -> (res: bool)
    ensures
        res == alphanumeric_char(c),
{
    c.is_alphanumeric()
}

/// `<str as Debug>::fmt` through `format!("{:?}", s)`.
#[verifier::external_body]
pub(crate) fn debug_quote(s: &str) -> (res: String)
    ensures
        res@ == debug_quoted(s@),
{
    format!("{:?}", s)
}

/// `String::from_iter` over the characters of `v`.
#[verifier::external_body]
pub(crate) fn string_from_chars(v: &Vec<char>) -> (res: String)
    ensures
        res@ == v@,
{
    v.iter().collect::<String>()
}

// ---------------------------------------------------------------------------
// Conversions
// ---------------------------------------------------------------------------

/// The characters of `s`, in order.
pub fn chars_of(s: &str) -> (v: Vec<char>)
    ensures
        v@ == s@,
{
    let mut v: Vec<char> = Vec::new();
    for c in it: s.chars()
        invariant
            v@ == it.seq().take(it.index() as int),
            it.seq() == s@,
    {
        v.push(c);
    }
    v
}

/// Append all characters of `s` to `v`.
pub fn push_chars(v: &mut Vec<char>, s: &Vec<char>)
    ensures
        final(v)@ == old(v)@ + s@,
{
    let mut i: usize = 0;
    while i < s.len()
        invariant
            i <= s.len(),
            v@ == old(v)@ + s@.take(i as int),
        decreases s.len() - i,
    {
        v.push(s[i]);
        i = i + 1;
        assert(s@.take(i as int) == s@.take(i - 1 as int).push(s@[i - 1]));
    }
    assert(s@.take(s.len() as int) == s@);
}

/// Append the characters of `s` to `v`.
pub fn push_str(v: &mut Vec<char>, s: &str)
    ensures
        final(v)@ == old(v)@ + s@,
{
    let cs = chars_of(s);
    push_chars(v, &cs);
}

/// Character-wise equality of two strings.
pub fn str_eq(a: &str, b: &str) -> (res: bool)
    ensures
        res == (a@ == b@),
{
    let x = chars_of(a);
    let y = chars_of(b);
    chars_eq(&x, &y)
}

/// Do the characters of `cs` spell `lit`?
pub fn chars_is(cs: &Vec<char>, lit: &str) -> (res: bool)
    ensures
        res == (cs@ == lit@),
{
    let l = chars_of(lit);
    chars_eq(cs, &l)
}

/// Element-wise equality of two character vectors.
pub fn chars_eq(x: &Vec<char>, y: &Vec<char>) -> (res: bool)
    ensures
        res == (x@ == y@),
{
    if x.len() != y.len() {
        return false;
    }
    let mut i: usize = 0;
    while i < x.len()
        invariant
            i <= x.len(),
            x.len() == y.len(),
            forall|j: int| 0 <= j < i ==> x@[j] == y@[j],
        decreases x.len() - i,
    {
        if x[i] != y[i] {
            return false;
        }
        i = i + 1;
    }
    assert(x@ =~= y@);
    true
}

// ---------------------------------------------------------------------------
// Prefixes, suffixes, search
// ---------------------------------------------------------------------------

pub open spec fn has_prefix(s: Seq<char>, p: Seq<char>) -> bool {
    p.len() <= s.len() && s.subrange(0, p.len() as int) == p
}

pub open spec fn has_suffix(s: Seq<char>, p: Seq<char>) -> bool {
    p.len() <= s.len() && s.subrange(s.len() - p.len(), s.len() as int) == p
}

pub open spec fn occurs_at(s: Seq<char>, p: Seq<char>, i: int) -> bool {
    0 <= i && i + p.len() <= s.len() && s.subrange(i, i + p.len()) == p
}

/// `p` occurs somewhere inside `s` (`str::contains`).
pub open spec fn contains_seq(s: Seq<char>, p: Seq<char>) -> bool {
    exists|i: int| occurs_at(s, p, i)
}

/// Does `s` start at position `start` with `p`?
pub fn chars_match_at(s: &Vec<char>, start: usize, p: &Vec<char>) -> (res: bool)
    ensures
        res == occurs_at(s@, p@, start as int),
{
    if start > s.len() || p.len() > s.len() - start {
        return false;
    }
    let mut j: usize = 0;
    while j < p.len()
        invariant
            j <= p.len(),
            start + p.len() <= s.len(),
            forall|k: int| 0 <= k < j ==> s@[start + k] == p@[k],
        decreases p.len() - j,
    {
        if s[start + j] != p[j] {
            assert(s@.subrange(start as int, start + p.len())[j as int] != p@[j as int]);
            return false;
        }
        j = j + 1;
    }
    assert(s@.subrange(start as int, start + p.len()) =~= p@);
    true
}

/// `str::starts_with` on character vectors.
pub fn chars_starts_with(s: &Vec<char>, p: &Vec<char>) -> (res: bool)
    ensures
        res == has_prefix(s@, p@),
{
    chars_match_at(s, 0, p)
}

/// `str::contains` on character vectors.
pub fn chars_contains(s: &Vec<char>, p: &Vec<char>) -> (res: bool)
    ensures
        res == contains_seq(s@, p@),
{
    if p.len() > s.len() {
        assert forall|i: int| !occurs_at(s@, p@, i) by {}
        return false;
    }
    let mut i: usize = 0;
    while p.len() <= s.len() - i
        invariant
            i <= s.len(),
            p.len() <= s.len(),
            forall|k: int| 0 <= k < i ==> !occurs_at(s@, p@, k),
        decreases s.len() - i,
    {
        if chars_match_at(s, i, p) {
            return true;
        }
        assert(p.len() > 0) by {
            if p.len() == 0 {
                assert(s@.subrange(i as int, i as int) =~= p@);
            }
        }
        i = i + 1;
    }
    assert forall|k: int| !occurs_at(s@, p@, k) by {
        if 0 <= k < i {
        }
    }
    false
}

// ---------------------------------------------------------------------------
// Whitespace and trimming (`char::is_whitespace` is the Unicode White_Space set)
// ---------------------------------------------------------------------------

/// The Unicode `White_Space` property, as `char::is_whitespace` documents it.
pub open spec fn is_ws(c: char) -> bool {
    ||| ('\u{9}' <= c && c <= '\u{d}')
    ||| c == ' '
    ||| c == '\u{85}'
    ||| c == '\u{a0}'
    ||| c == '\u{1680}'
    ||| ('\u{2000}' <= c && c <= '\u{200a}')
    ||| c == '\u{2028}'
    ||| c == '\u{2029}'
    ||| c == '\u{202f}'
    ||| c == '\u{205f}'
    ||| c == '\u{3000}'
}

pub fn is_whitespace(c: char) -> (res: bool)
    ensures
        res == is_ws(c),
{
    ('\u{9}' <= c && c <= '\u{d}') || c == ' ' || c == '\u{85}' || c == '\u{a0}' || c
        == '\u{1680}' || ('\u{2000}' <= c && c <= '\u{200a}') || c == '\u{2028}' || c
        == '\u{2029}' || c == '\u{202f}' || c == '\u{205f}' || c == '\u{3000}'
}

/// Number of leading whitespace characters.
pub open spec fn lead_ws(s: Seq<char>) -> nat
    decreases s.len(),
{
    if s.len() > 0 && is_ws(s[0]) {
        1 + lead_ws(s.drop_first())
    } else {
        0
    }
}

/// Number of trailing whitespace characters.
pub open spec fn trail_ws(s: Seq<char>) -> nat
    decreases s.len(),
{
    if s.len() > 0 && is_ws(s.last()) {
        1 + trail_ws(s.drop_last())
    } else {
        0
    }
}

/// `str::trim_start`.
pub open spec fn trim_start_seq(s: Seq<char>) -> Seq<char> {
    s.subrange(lead_ws(s) as int, s.len() as int)
}

/// `str::trim_end`.
pub open spec fn trim_end_seq(s: Seq<char>) -> Seq<char> {
    s.subrange(0, s.len() - trail_ws(s))
}

/// `str::trim`.
pub open spec fn trim_seq(s: Seq<char>) -> Seq<char> {
    trim_end_seq(trim_start_seq(s))
}

pub proof fn lemma_lead_ws_bound(s: Seq<char>)
    ensures
        lead_ws(s) <= s.len(),
        lead_ws(s) < s.len() ==> !is_ws(s[lead_ws(s) as int]),
        forall|k: int| 0 <= k < lead_ws(s) ==> is_ws(#[trigger] s[k]),
    decreases s.len(),
{
    if s.len() > 0 && is_ws(s[0]) {
        lemma_lead_ws_bound(s.drop_first());
        assert forall|k: int| 0 <= k < lead_ws(s) implies is_ws(#[trigger] s[k]) by {
            if k > 0 {
                assert(s[k] == s.drop_first()[k - 1]);
            }
        }
    }
}

pub proof fn lemma_trail_ws_bound(s: Seq<char>)
    ensures
        trail_ws(s) <= s.len(),
        trail_ws(s) < s.len() ==> !is_ws(s[s.len() - 1 - trail_ws(s)]),
        forall|k: int| s.len() - trail_ws(s) <= k < s.len() ==> is_ws(#[trigger] s[k]),
    decreases s.len(),
{
    if s.len() > 0 && is_ws(s.last()) {
        lemma_trail_ws_bound(s.drop_last());
        assert forall|k: int| s.len() - trail_ws(s) <= k < s.len() implies is_ws(
            #[trigger] s[k],
        ) by {
            if k < s.len() - 1 {
                assert(s[k] == s.drop_last()[k]);
            }
        }
    }
}

/// Count of leading whitespace, computed.
pub fn count_lead_ws(s: &Vec<char>) -> (n: usize)
    ensures
        n == lead_ws(s@),
{
    let mut i: usize = 0;
    assert(s@.subrange(0, s.len() as int) =~= s@);
    while i < s.len() && is_whitespace(s[i])
        invariant
            i <= s.len(),
            lead_ws(s@) == i + lead_ws(s@.subrange(i as int, s.len() as int)),
        decreases s.len() - i,
    {
        let ghost rest = s@.subrange(i as int, s.len() as int);
        assert(rest.drop_first() =~= s@.subrange(i + 1, s.len() as int));
        i = i + 1;
    }
    assert(lead_ws(s@.subrange(i as int, s.len() as int)) == 0);
    i
}

/// Count of trailing whitespace, computed.
pub fn count_trail_ws(s: &Vec<char>) -> (n: usize)
    ensures
        n == trail_ws(s@),
{
    let mut k: usize = s.len();
    assert(s@.subrange(0, s.len() as int) =~= s@);
    while k > 0 && is_whitespace(s[k - 1])
        invariant
            k <= s.len(),
            trail_ws(s@) == (s.len() - k) + trail_ws(s@.subrange(0, k as int)),
        decreases k,
    {
        let ghost pre = s@.subrange(0, k as int);
        assert(pre.drop_last() =~= s@.subrange(0, k - 1));
        k = k - 1;
    }
    assert(trail_ws(s@.subrange(0, k as int)) == 0);
    s.len() - k
}

/// A copy of `s@.subrange(lo, hi)`.
pub fn sub_chars(s: &Vec<char>, lo: usize, hi: usize) -> (r: Vec<char>)
    requires
        lo <= hi <= s.len(),
    ensures
        r@ == s@.subrange(lo as int, hi as int),
{
    let mut r: Vec<char> = Vec::new();
    let mut i = lo;
    while i < hi
        invariant
            lo <= i <= hi,
            hi <= s.len(),
            r@ == s@.subrange(lo as int, i as int),
        decreases hi - i,
    {
        r.push(s[i]);
        i = i + 1;
        assert(s@.subrange(lo as int, i as int) == s@.subrange(lo as int, i - 1 as int).push(
            s@[i - 1],
        ));
    }
    r
}

/// `str::trim_start` on characters.
pub fn trim_start_chars(s: &Vec<char>) -> (r: Vec<char>)
    ensures
        r@ == trim_start_seq(s@),
{
    proof {
        lemma_lead_ws_bound(s@);
    }
    let n = count_lead_ws(s);
    sub_chars(s, n, s.len())
}

/// `str::trim_end` on characters.
pub fn trim_end_chars(s: &Vec<char>) -> (r: Vec<char>)
    ensures
        r@ == trim_end_seq(s@),
{
    proof {
        lemma_trail_ws_bound(s@);
    }
    let n = count_trail_ws(s);
    sub_chars(s, 0, s.len() - n)
}

/// `str::trim` on characters.
pub fn trim_chars(s: &Vec<char>) -> (r: Vec<char>)
    ensures
        r@ == trim_seq(s@),
{
    let a = trim_start_chars(s);
    trim_end_chars(&a)
}

// ---------------------------------------------------------------------------
// Decimal and hexadecimal rendering (`Display` for integers, `{:0N}`, `{:0Nx}`)
// ---------------------------------------------------------------------------

pub open spec fn digit_char(d: nat) -> char {
    if d == 0 { '0' }
    else if d == 1 { '1' }
    else if d == 2 { '2' }
    else if d == 3 { '3' }
    else if d == 4 { '4' }
    else if d == 5 { '5' }
    else if d == 6 { '6' }
    else if d == 7 { '7' }
    else if d == 8 { '8' }
    else if d == 9 { '9' }
    else if d == 10 { 'a' }
    else if d == 11 { 'b' }
    else if d == 12 { 'c' }
    else if d == 13 { 'd' }
    else if d == 14 { 'e' }
    else { 'f' }
}

/// Digits of `n` in base `b` (most significant first), no leading zeros.
pub open spec fn base_digits(n: nat, b: nat) -> Seq<char>
    recommends
        2 <= b <= 16,
    decreases n,
{
    if b < 2 || n < b {
        seq![digit_char(n)]
    } else {
        proof {
            assert(n / b < n) by (nonlinear_arith)
                requires
                    n >= b,
                    b >= 2,
            ;
        }
        base_digits(n / b, b).push(digit_char(n % b))
    }
}

/// Decimal text of a natural number.
pub open spec fn dec(n: nat) -> Seq<char> {
    base_digits(n, 10)
}

/// Decimal text of an integer, with a leading `-` when negative.
pub open spec fn dec_int(i: int) -> Seq<char> {
    if i < 0 {
        seq!['-'] + dec((-i) as nat)
    } else {
        dec(i as nat)
    }
}

/// Left-pad with `'0'` up to width `w` (`{:0w}` on a non-negative value).
pub open spec fn zero_pad(s: Seq<char>, w: nat) -> Seq<char> {
    if s.len() >= w {
        s
    } else {
        Seq::new((w - s.len()) as nat, |_i: int| '0') + s
    }
}

pub fn digit_of(d: u64) -> (c: char)
    requires
        d < 16,
    ensures
        c == digit_char(d as nat),
{
    if d == 0 { '0' }
    else if d == 1 { '1' }
    else if d == 2 { '2' }
    else if d == 3 { '3' }
    else if d == 4 { '4' }
    else if d == 5 { '5' }
    else if d == 6 { '6' }
    else if d == 7 { '7' }
    else if d == 8 { '8' }
    else if d == 9 { '9' }
    else if d == 10 { 'a' }
    else if d == 11 { 'b' }
    else if d == 12 { 'c' }
    else if d == 13 { 'd' }
    else if d == 14 { 'e' }
    else { 'f' }
}

proof fn lemma_base_digits_step(q: nat, b: nat)
    requires
        2 <= b <= 16,
        q > 0,
    ensures
        base_digits(q, b) == (if q / b == 0 { Seq::<char>::empty() } else { base_digits(q / b, b) }).push(
            digit_char(q % b),
        ),
{
    if q < b {
        assert(q / b == 0) by (nonlinear_arith)
            requires
                q < b,
                b >= 2,
        ;
        assert(q % b == q) by (nonlinear_arith)
            requires
                q < b,
                b >= 2,
        ;
        assert(Seq::<char>::empty().push(digit_char(q)) =~= seq![digit_char(q)]);
    } else {
        assert(q / b > 0) by (nonlinear_arith)
            requires
                q >= b,
                b >= 2,
        ;
    }
}

/// Digits of `n` in base `b`.
pub fn u64_digits(n: u64, b: u64) -> (v: Vec<char>)
    requires
        2 <= b <= 16,
    ensures
        v@ == base_digits(n as nat, b as nat),
        v@.len() >= 1,
{
    let mut q = n;
    let mut acc: Vec<char> = Vec::new();
    if q == 0 {
        acc.push('0');
        assert(acc@ =~= seq!['0']);
        return acc;
    }
    while q > 0
        invariant
            2 <= b <= 16,
            q > 0 ==> base_digits(n as nat, b as nat) == base_digits(q as nat, b as nat) + acc@,
            q == 0 ==> base_digits(n as nat, b as nat) == acc@,
            n > 0,
            q == n || acc@.len() > 0,
        decreases q,
    {
        proof {
            lemma_base_digits_step(q as nat, b as nat);
        }
        let d = digit_of(q % b);
        let ghost old_acc = acc@;
        acc.insert(0, d);
        let ghost qn = q as nat;
        q = q / b;
        proof {
            assert(acc@ =~= seq![d] + old_acc);
            if q > 0 {
                assert(base_digits(qn, b as nat) == base_digits(q as nat, b as nat).push(d));
                assert(base_digits(q as nat, b as nat).push(d) + old_acc =~= base_digits(
                    q as nat,
                    b as nat,
                ) + acc@);
            } else {
                assert(base_digits(qn, b as nat) == Seq::<char>::empty().push(d));
                assert(Seq::<char>::empty().push(d) + old_acc =~= acc@);
            }
        }
    }
    acc
}

/// Decimal text of an unsigned integer.
pub fn u64_dec(n: u64) -> (v: Vec<char>)
    ensures
        v@ == dec(n as nat),
{
    u64_digits(n, 10)
}

/// Decimal text of a signed integer.
pub fn i64_dec(i: i64) -> (v: Vec<char>)
    ensures
        v@ == dec_int(i as int),
{
    if i < 0 {
        let mag: u64 = if i == i64::MIN {
            9223372036854775808u64
        } else {
            (-i) as u64
        };
        let mut v: Vec<char> = Vec::new();
        v.push('-');
        let d = u64_dec(mag);
        push_chars(&mut v, &d);
        assert(v@ =~= seq!['-'] + dec((-(i as int)) as nat));
        v
    } else {
        u64_dec(i as u64)
    }
}

/// Left-pad a digit string with zeros up to `w` characters.
pub fn pad_zeros(s: &Vec<char>, w: usize) -> (v: Vec<char>)
    ensures
        v@ == zero_pad(s@, w as nat),
{
    let mut v: Vec<char> = Vec::new();
    if s.len() >= w {
        push_chars(&mut v, s);
        assert(v@ =~= s@);
        return v;
    }
    let k = w - s.len();
    let mut i: usize = 0;
    while i < k
        invariant
            i <= k,
            v@ == Seq::new(i as nat, |_j: int| '0'),
        decreases k - i,
    {
        v.push('0');
        i = i + 1;
        assert(v@ =~= Seq::new(i as nat, |_j: int| '0'));
    }
    push_chars(&mut v, s);
    v
}

// ---------------------------------------------------------------------------
// Lists of strings
// ---------------------------------------------------------------------------

/// The texts of a list of strings.
pub open spec fn texts(v: Seq<String>) -> Seq<Seq<char>> {
    v.map_values(|x: String| x@)
}

/// Does `v` hold the text `k`?
pub fn contains_text(v: &[String], k: &str) -> (b: bool)
    ensures
        b == texts(v@).contains(k@),
{
    let ghost m = texts(v@);
    let mut i: usize = 0;
    while i < v.len()
        invariant
            i <= v.len(),
            m == texts(v@),
            forall|j: int| 0 <= j < i ==> m[j] != k@,
        decreases v.len() - i,
    {
        if str_eq(v[i].as_str(), k) {
            assert(m[i as int] == k@);
            return true;
        }
        i = i + 1;
    }
    false
}

// ---------------------------------------------------------------------------
// Text order
// ---------------------------------------------------------------------------

/// Text order (by code point, which for UTF-8 is byte order): `a <= b`.
pub open spec fn text_le(a: Seq<char>, b: Seq<char>) -> bool
    decreases a.len(),
{
    if a.len() == 0 {
        true
    } else if b.len() == 0 {
        false
    } else if (a[0] as u32) != (b[0] as u32) {
        (a[0] as u32) < (b[0] as u32)
    } else {
        text_le(a.drop_first(), b.drop_first())
    }
}

pub fn text_le_exec(a: &str, b: &str) -> (r: bool)
    ensures
        r == text_le(a@, b@),
{
    let x = crate::text::chars_of(a);
    let y = crate::text::chars_of(b);
    let mut i: usize = 0;
    assert(x@.skip(0) =~= x@);
    assert(y@.skip(0) =~= y@);
    while i < x.len() && i < y.len() && (x[i] as u32) == (y[i] as u32)
        invariant
            i <= x.len(),
            i <= y.len(),
            text_le(a@, b@) == text_le(x@.skip(i as int), y@.skip(i as int)),
            x@ == a@,
            y@ == b@,
        decreases x.len() - i,
    {
        assert(x@.skip(i as int).drop_first() =~= x@.skip(i + 1));
        assert(y@.skip(i as int).drop_first() =~= y@.skip(i + 1));
        i = i + 1;
    }
    if i == x.len() {
        true
    } else if i == y.len() {
        false
    } else {
        (x[i] as u32) < (y[i] as u32)
    }
}

pub proof fn lemma_text_le_refl(a: Seq<char>)
    ensures
        text_le(a, a),
    decreases a.len(),
{
    if a.len() > 0 {
        lemma_text_le_refl(a.drop_first());
    }
}

pub proof fn lemma_text_le_total(a: Seq<char>, b: Seq<char>)
    ensures
        text_le(a, b) || text_le(b, a),
    decreases a.len(),
{
    if a.len() > 0 && b.len() > 0 && (a[0] as u32) == (b[0] as u32) {
        lemma_text_le_total(a.drop_first(), b.drop_first());
    }
}

pub proof fn lemma_text_le_trans(a: Seq<char>, b: Seq<char>, c: Seq<char>)
    requires
        text_le(a, b),
        text_le(b, c),
    ensures
        text_le(a, c),
    decreases a.len(),
{
    if a.len() > 0 && b.len() > 0 && c.len() > 0 && (a[0] as u32) == (b[0] as u32) && (b[0] as u32) == (c[0] as u32) {
        lemma_text_le_trans(a.drop_first(), b.drop_first(), c.drop_first());
    }
}

proof fn lemma_char_code_inj(x: char, y: char)
    requires
        (x as u32) == (y as u32),
    ensures
        x == y,
{
}

pub proof fn lemma_text_le_antisym(a: Seq<char>, b: Seq<char>)
    requires
        text_le(a, b),
        text_le(b, a),
    ensures
        a == b,
    decreases a.len(),
{
    if a.len() > 0 && b.len() > 0 {
        let x = a[0];
        let y = b[0];
        assert((x as u32) == (y as u32));
        lemma_char_code_inj(x, y);
        lemma_text_le_antisym(a.drop_first(), b.drop_first());
        assert(a =~= seq![x] + a.drop_first());
        assert(b =~= seq![y] + b.drop_first());
    } else {
        assert(a.len() == 0 && b.len() == 0);
        assert(a =~= b);
    }
}

/// Strictly ascending in text order.
pub open spec fn ascending(t: Seq<Seq<char>>) -> bool {
    forall|i: int, j: int| 0 <= i < j < t.len() ==> text_le(#[trigger] t[i], #[trigger] t[j]) && t[i] != t[j]
}

/// Insert `s` into the strictly ascending list `v` unless it is already there.
pub fn insert_ascending(v: &mut Vec<String>, s: String)
    requires
        ascending(texts(old(v)@)),
    ensures
        ascending(texts(final(v)@)),
        texts(final(v)@).to_set() == texts(old(v)@).to_set().insert(s@),
{
    let ghost t0 = texts(v@);
    let mut i: usize = 0;
    while i < v.len() && !text_le_exec(s.as_str(), v[i].as_str())
        invariant
            i <= v.len(),
            t0 == texts(v@),
            forall|j: int| 0 <= j < i ==> !text_le(s@, #[trigger] t0[j]),
        decreases v.len() - i,
    {
        i = i + 1;
    }
    if i < v.len() && str_eq(v[i].as_str(), s.as_str()) {
        proof {
            assert(t0[i as int] == s@);
            assert(t0.to_set().insert(s@) =~= t0.to_set());
        }
        return;
    }
    let ghost sv = s@;
    v.insert(i, s);
    proof {
        let t1 = texts(v@);
        assert(t1 =~= t0.insert(i as int, sv));
        assert forall|a: int, b: int| 0 <= a < b < t1.len() implies text_le(#[trigger] t1[a], #[trigger] t1[b])
            && t1[a] != t1[b] by {
            if b < i {
                assert(t1[a] == t0[a] && t1[b] == t0[b]);
            } else if b == i {
                assert(t1[a] == t0[a] && t1[b] == sv);
                lemma_text_le_total(sv, t0[a]);
                if t0[a] == sv {
                    lemma_text_le_refl(sv);
                }
            } else if a == i {
                assert(t1[a] == sv && t1[b] == t0[b - 1]);
                assert(text_le(sv, t0[i as int]));
                if b - 1 > i {
                    assert(text_le(t0[i as int], t0[b - 1]) && t0[i as int] != t0[b - 1]);
                    lemma_text_le_trans(sv, t0[i as int], t0[b - 1]);
                    if sv == t0[b - 1] {
                        lemma_text_le_antisym(sv, t0[i as int]);
                    }
                }
            } else if a < i {
                assert(t1[a] == t0[a] && t1[b] == t0[b - 1]);
            } else {
                assert(t1[a] == t0[a - 1] && t1[b] == t0[b - 1]);
            }
        }
        assert(t1.to_set() =~= t0.to_set().insert(sv)) by {
            assert forall|x: Seq<char>| t1.to_set().contains(x) <==> t0.to_set().insert(sv).contains(x) by {
                if t1.to_set().contains(x) {
                    let k = choose|k: int| 0 <= k < t1.len() && t1[k] == x;
                    if k < i {
                        assert(t0[k] == x);
                    } else if k > i {
                        assert(t0[k - 1] == x);
                    }
                }
                if t0.to_set().contains(x) {
                    let k = choose|k: int| 0 <= k < t0.len() && t0[k] == x;
                    if k < i {
                        assert(t1[k] == x);
                    } else {
                        assert(t1[k + 1] == x);
                    }
                }
                if x == sv {
                    assert(t1[i as int] == x);
                }
            }
        }
    }
}

} // verus!
