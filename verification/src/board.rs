//! The message board file: its lines, compaction by age, retention when
//! read, and the sweep of session bindings whose heartbeat has gone quiet.
use vstd::prelude::*;

use crate::project::{heartbeat_age, heartbeat_fits};
use crate::text::{chars_of, is_whitespace, is_ws, string_from_chars, sub_chars, texts};
use crate::timefmt::{bytes_of, epoch_of, iso_fields, parse_iso_epoch, lemma_epoch_nonneg};

verus! {

// ---------------------------------------------------------------------------
// Lines
// ---------------------------------------------------------------------------

/// Position of the first newline, or -1.
pub open spec fn nl_index(s: Seq<char>) -> int
    decreases s.len(),
{
    if s.len() == 0 {
        -1
    } else if s[0] == '\n' {
        0
    } else {
        let k = nl_index(s.drop_first());
        if k < 0 {
            -1
        } else {
            k + 1
        }
    }
}

pub proof fn lemma_nl_index(s: Seq<char>)
    ensures
        -1 <= nl_index(s) < s.len(),
        nl_index(s) >= 0 ==> s[nl_index(s)] == '\n',
        forall|j: int| 0 <= j < s.len() && (nl_index(s) < 0 || j < nl_index(s)) ==> s[j] != '\n',
    decreases s.len(),
{
    if s.len() > 0 && s[0] != '\n' {
        lemma_nl_index(s.drop_first());
        assert forall|j: int| 0 <= j < s.len() && (nl_index(s) < 0 || j < nl_index(s)) implies s[j] != '\n' by {
            if j > 0 {
                assert(s[j] == s.drop_first()[j - 1]);
            }
        }
    }
}

proof fn lemma_nl_index_at(s: Seq<char>, m: int)
    requires
        0 <= m <= s.len(),
        forall|j: int| 0 <= j < m ==> s[j] != '\n',
        m == s.len() || s[m] == '\n',
    ensures
        nl_index(s) == if m == s.len() { -1 } else { m },
{
    lemma_nl_index(s);
}

/// A line without the `\r` of a `\r\n` ending.
pub open spec fn strip_cr(l: Seq<char>) -> Seq<char> {
    if l.len() > 0 && l.last() == '\r' {
        l.drop_last()
    } else {
        l
    }
}

/// The lines of a text as `str::lines` gives them: split at `\n`, a `\r`
/// before the `\n` dropped, and no empty line after a final newline.
pub open spec fn lines_of(s: Seq<char>) -> Seq<Seq<char>>
    decreases s.len(),
{
    if s.len() == 0 {
        Seq::empty()
    } else {
        let k = nl_index(s);
        if k < 0 {
            seq![s]
        } else {
            proof {
                lemma_nl_index(s);
            }
            seq![strip_cr(s.subrange(0, k))] + lines_of(s.subrange(k + 1, s.len() as int))
        }
    }
}

/// A line of whitespace only (what trims to nothing).
pub open spec fn blank(l: Seq<char>) -> bool {
    forall|i: int| 0 <= i < l.len() ==> is_ws(#[trigger] l[i])
}

/// The lines that are not blank, in order.
pub open spec fn non_blank(ls: Seq<Seq<char>>) -> Seq<Seq<char>>
    decreases ls.len(),
{
    if ls.len() == 0 {
        Seq::empty()
    } else if blank(ls.last()) {
        non_blank(ls.drop_last())
    } else {
        non_blank(ls.drop_last()).push(ls.last())
    }
}

proof fn lemma_non_blank_concat(a: Seq<Seq<char>>, b: Seq<Seq<char>>)
    ensures
        non_blank(a + b) == non_blank(a) + non_blank(b),
    decreases b.len(),
{
    if b.len() == 0 {
        assert(a + b =~= a);
        assert(non_blank(a) + non_blank(b) =~= non_blank(a));
    } else {
        lemma_non_blank_concat(a, b.drop_last());
        assert((a + b).drop_last() =~= a + b.drop_last());
        assert((a + b).last() == b.last());
    }
}

proof fn lemma_non_blank_one(l: Seq<char>)
    ensures
        non_blank(seq![l]) == if blank(l) { Seq::<Seq<char>>::empty() } else { seq![l] },
{
    let one = seq![l];
    assert(one.drop_last() =~= Seq::<Seq<char>>::empty());
    assert(one.last() == l);
    assert(non_blank(one.drop_last()) == Seq::<Seq<char>>::empty());
    assert(Seq::<Seq<char>>::empty().push(l) =~= one);
    if blank(l) {
        assert(non_blank(one) == non_blank(one.drop_last()));
    } else {
        assert(non_blank(one) == non_blank(one.drop_last()).push(one.last()));
    }
}

fn is_blank(l: &Vec<char>) -> (b: bool)
    ensures
        b == blank(l@),
{
    let mut i: usize = 0;
    while i < l.len()
        invariant
            i <= l.len(),
            forall|j: int| 0 <= j < i ==> is_ws(#[trigger] l@[j]),
        decreases l.len() - i,
    {
        if !is_whitespace(l[i]) {
            return false;
        }
        i = i + 1;
    }
    true
}

fn strip_cr_exec(l: Vec<char>) -> (r: Vec<char>)
    ensures
        r@ == strip_cr(l@),
{
    let mut l = l;
    if l.len() > 0 && l[l.len() - 1] == '\r' {
        l.pop();
    }
    l
}

/// The non-blank lines of a board file, in order.
pub fn board_lines(content: &str) -> (v: Vec<String>)
    ensures
        texts(v@) == non_blank(lines_of(content@)),
{
    let s = chars_of(content);
    let ghost t = s@;
    let n = s.len();
    let mut out: Vec<String> = Vec::new();
    let mut start: usize = 0;
    let mut i: usize = 0;
    assert(t.subrange(0, n as int) =~= t);
    assert(texts(out@) =~= Seq::<Seq<char>>::empty());
    while i < n
        invariant
            n == s.len(),
            t == s@,
            t == content@,
            start <= i <= n,
            forall|j: int| start <= j < i ==> t[j] != '\n',
            texts(out@) + non_blank(lines_of(t.subrange(start as int, n as int))) == non_blank(lines_of(t)),
        decreases n - i,
    {
        if s[i] == '\n' {
            let ghost rest = t.subrange(start as int, n as int);
            let piece = sub_chars(&s, start, i);
            let line = strip_cr_exec(piece);
            proof {
                lemma_nl_index_at(rest, i - start);
                assert(rest.subrange(0, i - start) =~= t.subrange(start as int, i as int));
                assert(rest.subrange(i - start + 1, rest.len() as int) =~= t.subrange(i + 1, n as int));
                let l = strip_cr(t.subrange(start as int, i as int));
                assert(lines_of(rest) == seq![l] + lines_of(t.subrange(i + 1, n as int)));
                lemma_non_blank_concat(seq![l], lines_of(t.subrange(i + 1, n as int)));
                assert(seq![l].drop_last() =~= Seq::<Seq<char>>::empty());
            }
            let ghost before = texts(out@);
            if !is_blank(&line) {
                out.push(string_from_chars(&line));
                proof {
                    assert(texts(out@) =~= before.push(line@));
                }
            }
            proof {
                let l = strip_cr(t.subrange(start as int, i as int));
                lemma_non_blank_one(l);
                assert(texts(out@) + non_blank(lines_of(t.subrange(i + 1, n as int))) =~= before + (non_blank(
                    seq![l],
                ) + non_blank(lines_of(t.subrange(i + 1, n as int)))));
            }
            start = i + 1;
        }
        i = i + 1;
    }
    let ghost rest = t.subrange(start as int, n as int);
    if start < n {
        let piece = sub_chars(&s, start, n);
        proof {
            lemma_nl_index_at(rest, rest.len() as int);
            assert(lines_of(rest) == seq![rest]);
            assert(seq![rest].drop_last() =~= Seq::<Seq<char>>::empty());
        }
        let ghost before = texts(out@);
        if !is_blank(&piece) {
            out.push(string_from_chars(&piece));
            proof {
                assert(texts(out@) =~= before.push(piece@));
            }
        }
        proof {
            lemma_non_blank_one(rest);
            assert(texts(out@) =~= before + non_blank(lines_of(rest)));
        }
    } else {
        proof {
            assert(rest =~= Seq::<char>::empty());
            assert(texts(out@) + non_blank(lines_of(rest)) =~= texts(out@));
        }
    }
    out
}

// ---------------------------------------------------------------------------
// Timestamps of lines
// ---------------------------------------------------------------------------

/// The epoch seconds of a timestamp, when it parses.
pub open spec fn stamp_epoch(t: Seq<char>) -> Option<int> {
    match iso_fields(vstd::utf8::encode_utf8(t)) {
        Some(f) => Some(epoch_of(f)),
        None => None,
    }
}

fn stamp_epoch_exec(t: &str) -> (r: Option<u64>)
    requires
        heartbeat_fits(t@),
    ensures
        r == match stamp_epoch(t@) {
            Some(e) => Some(e as u64),
            None => None::<u64>,
        },
        r is Some ==> r->0 == stamp_epoch(t@)->0,
{
    proof {
        assert(bytes_of(t) == vstd::utf8::encode_utf8(t@));
        match iso_fields(bytes_of(t)) {
            Some(f) => lemma_epoch_nonneg(f),
            None => {},
        }
    }
    parse_iso_epoch(t)
}

/// Optional texts of optional strings.
pub open spec fn opt_texts(v: Seq<Option<String>>) -> Seq<Option<Seq<char>>> {
    v.map_values(|o: Option<String>| match o {
        Some(s) => Some(s@),
        None => None,
    })
}

/// Every timestamp that parses has epoch seconds that fit in `u64`.
pub open spec fn stamps_fit(v: Seq<Option<String>>) -> bool {
    forall|i: int| 0 <= i < v.len() ==> match #[trigger] v[i] {
        Some(t) => heartbeat_fits(t@),
        None => true,
    }
}

/// How many entries are `true`.
pub open spec fn count_true(s: Seq<bool>) -> nat
    decreases s.len(),
{
    if s.len() == 0 {
        0
    } else {
        count_true(s.drop_last()) + if s.last() { 1nat } else { 0nat }
    }
}

proof fn lemma_count_true_bound(s: Seq<bool>)
    ensures
        count_true(s) <= s.len(),
    decreases s.len(),
{
    if s.len() > 0 {
        lemma_count_true_bound(s.drop_last());
    }
}

fn count_kept(v: &Vec<bool>) -> (n: usize)
    ensures
        n == count_true(v@),
{
    let mut n: usize = 0;
    let mut i: usize = 0;
    assert(v@.take(0) =~= Seq::<bool>::empty());
    while i < v.len()
        invariant
            i <= v.len(),
            n == count_true(v@.take(i as int)),
        decreases v.len() - i,
    {
        proof {
            assert(v@.take(i + 1).drop_last() =~= v@.take(i as int));
            assert(v@.take(i + 1).last() == v@[i as int]);
            lemma_count_true_bound(v@.take(i as int));
        }
        if v[i] {
            n = n + 1;
        }
        i = i + 1;
    }
    assert(v@.take(v.len() as int) =~= v@);
    n
}

// ---------------------------------------------------------------------------
// Compaction
// ---------------------------------------------------------------------------

/// The oldest timestamp that compaction keeps: `max_age_days` before `now`
/// (the epoch when that is earlier).
pub open spec fn cutoff_of(now: u64, max_age_days: u64) -> int {
    if now >= max_age_days * 86400 {
        now - max_age_days * 86400
    } else {
        0
    }
}

/// A line survives on age: it is not a message with a timestamp that parses
/// (`None` stands for a line that is not a JSON message), or its timestamp
/// is at or after the cutoff.
pub open spec fn young_enough(stamp: Option<Seq<char>>, cutoff: int) -> bool {
    match stamp {
        Some(t) => match stamp_epoch(t) {
            Some(e) => e >= cutoff,
            None => true,
        },
        None => true,
    }
}

/// Which lines compaction keeps: all of them when there are at most
/// `min_keep`; else those young enough, or the newest `min_keep` when fewer
/// than that are young enough.
pub open spec fn compact_keep(stamps: Seq<Option<Seq<char>>>, cutoff: int, min_keep: nat) -> Seq<bool> {
    let n = stamps.len();
    let young = Seq::new(n, |i: int| young_enough(stamps[i], cutoff));
    if n <= min_keep {
        Seq::new(n, |i: int| true)
    } else if count_true(young) < min_keep {
        Seq::new(n, |i: int| i >= n - min_keep)
    } else {
        young
    }
}

/// What compacting the board does: which lines stay, how many stay and how
/// many go (the board is rewritten only when some go).
pub struct CompactPlan {
    pub keep: Vec<bool>,
    pub kept: usize,
    pub removed: usize,
}

/// Plan the compaction of a board whose lines carry the timestamps `stamps`
/// (`None` for a line that is not a JSON message; the text, empty when
/// missing, otherwise): drop messages older than `max_age_days` days before
/// `now`, but keep at least the newest `min_keep` lines.
pub fn compact_plan(stamps: &Vec<Option<String>>, now: u64, max_age_days: u64, min_keep: usize) -> (p: CompactPlan)
    requires
        max_age_days * 86400 <= u64::MAX,
        stamps_fit(stamps@),
    ensures
        p.keep@ == compact_keep(opt_texts(stamps@), cutoff_of(now, max_age_days), min_keep as nat),
        p.kept == count_true(p.keep@),
        p.kept + p.removed == stamps@.len(),
{
    let n = stamps.len();
    let ghost st = opt_texts(stamps@);
    let ghost cutoff = cutoff_of(now, max_age_days);
    let mut keep: Vec<bool> = Vec::new();
    if n <= min_keep {
        let mut i: usize = 0;
        while i < n
            invariant
                i <= n,
                n == stamps@.len(),
                keep@ =~= Seq::new(i as nat, |j: int| true),
            decreases n - i,
        {
            keep.push(true);
            i = i + 1;
        }
    } else {
        let span: u64 = max_age_days * 86400;
        let cut: u64 = if now >= span {
            now - span
        } else {
            0
        };
        let mut i: usize = 0;
        while i < n
            invariant
                i <= n,
                n == stamps@.len(),
                st == opt_texts(stamps@),
                stamps_fit(stamps@),
                cut == cutoff,
                cutoff == cutoff_of(now, max_age_days),
                keep@ =~= Seq::new(i as nat, |j: int| young_enough(st[j], cutoff)),
            decreases n - i,
        {
            let y = match &stamps[i] {
                Some(t) => {
                    proof {
                        assert(heartbeat_fits(t@));
                    }
                    match stamp_epoch_exec(t.as_str()) {
                        Some(e) => e >= cut,
                        None => true,
                    }
                },
                None => true,
            };
            keep.push(y);
            i = i + 1;
        }
        let young_count = count_kept(&keep);
        if young_count < min_keep {
            let mut mask: Vec<bool> = Vec::new();
            let mut k: usize = 0;
            while k < n
                invariant
                    k <= n,
                    min_keep < n,
                    mask@ =~= Seq::new(k as nat, |j: int| j >= n - min_keep),
                decreases n - k,
            {
                mask.push(k >= n - min_keep);
                k = k + 1;
            }
            keep = mask;
        }
    }
    let kept = count_kept(&keep);
    proof {
        lemma_count_true_bound(keep@);
    }
    CompactPlan { keep, kept, removed: n - kept }
}

// ---------------------------------------------------------------------------
// Retention when reading the board
// ---------------------------------------------------------------------------

/// A message is kept on reading when retention is off (`0` days), its
/// timestamp does not parse, or it is at most `days` days old at `now`.
pub open spec fn retained(stamp: Seq<char>, now: u64, days: u64) -> bool {
    days == 0 || match stamp_epoch(stamp) {
        Some(e) => (if now >= e { now - e } else { 0 }) <= days * 86400,
        None => true,
    }
}

/// Which of the messages with timestamps `stamps` a read keeps.
pub fn retained_mask(stamps: &Vec<String>, now: u64, retention_days: u64) -> (v: Vec<bool>)
    requires
        retention_days * 86400 <= u64::MAX,
        forall|i: int| 0 <= i < stamps@.len() ==> heartbeat_fits((#[trigger] stamps@[i])@),
    ensures
        v@.len() == stamps@.len(),
        forall|i: int| 0 <= i < v@.len() ==> v@[i] == retained((#[trigger] stamps@[i])@, now, retention_days),
{
    let mut v: Vec<bool> = Vec::new();
    let mut i: usize = 0;
    while i < stamps.len()
        invariant
            i <= stamps.len(),
            retention_days * 86400 <= u64::MAX,
            forall|k: int| 0 <= k < stamps@.len() ==> heartbeat_fits((#[trigger] stamps@[k])@),
            v@.len() == i,
            forall|k: int| 0 <= k < i ==> v@[k] == retained((#[trigger] stamps@[k])@, now, retention_days),
        decreases stamps.len() - i,
    {
        let keep = if retention_days == 0 {
            true
        } else {
            match stamp_epoch_exec(stamps[i].as_str()) {
                Some(t) => {
                    let age: u64 = if now >= t {
                        now - t
                    } else {
                        0
                    };
                    age <= retention_days * 86400
                },
                None => true,
            }
        };
        v.push(keep);
        i = i + 1;
    }
    v
}

// ---------------------------------------------------------------------------
// Sessions that have gone
// ---------------------------------------------------------------------------

/// Which bindings, by heartbeat, are still within `gone_threshold` seconds
/// of `now` (a heartbeat that does not parse counts as infinitely old).
pub fn live_bindings_mask(heartbeats: &Vec<String>, now: u64, gone_threshold: u64) -> (v: Vec<bool>)
    requires
        forall|i: int| 0 <= i < heartbeats@.len() ==> heartbeat_fits((#[trigger] heartbeats@[i])@),
    ensures
        v@.len() == heartbeats@.len(),
        forall|i: int|
            0 <= i < v@.len() ==> v@[i] == (heartbeat_age((#[trigger] heartbeats@[i])@, now) <= gone_threshold),
{
    let mut v: Vec<bool> = Vec::new();
    let mut i: usize = 0;
    while i < heartbeats.len()
        invariant
            i <= heartbeats.len(),
            forall|k: int| 0 <= k < heartbeats@.len() ==> heartbeat_fits((#[trigger] heartbeats@[k])@),
            v@.len() == i,
            forall|k: int|
                0 <= k < i ==> v@[k] == (heartbeat_age((#[trigger] heartbeats@[k])@, now) <= gone_threshold),
        decreases heartbeats.len() - i,
    {
        let age: u64 = match stamp_epoch_exec(heartbeats[i].as_str()) {
            Some(t) => if now >= t {
                now - t
            } else {
                0
            },
            None => u64::MAX,
        };
        v.push(age <= gone_threshold);
        i = i + 1;
    }
    v
}

} // verus!
