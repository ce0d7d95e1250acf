//! Sections of a project (sub-boards with their own messages): the listing
//! order, the name check on creation, and the wait for a board lock.
use vstd::prelude::*;

use crate::project::{dashed, slug_of};
use crate::text::lowercase_of;
use crate::text::{text_le, text_le_exec, lemma_text_le_total, lemma_text_le_trans, push_str, string_from_chars};

verus! {

/// A section of the project board.
#[derive(Debug, Clone)]
pub struct SectionInfo {
    pub slug: String,
    pub name: String,
    pub created_at: String,
    pub message_count: u64,
    pub last_activity: Option<String>,
    pub is_active: bool,
}

// ---------------------------------------------------------------------------
// Listing order: the active section first, then by creation time
// ---------------------------------------------------------------------------

/// `a` is listed before `b`: it is active and `b` is not, or both are
/// alike and `a` was created earlier (text order of the timestamps).
pub open spec fn section_precedes(a: SectionInfo, b: SectionInfo) -> bool {
    (a.is_active && !b.is_active) || (a.is_active == b.is_active && !text_le(b.created_at@, a.created_at@))
}

/// Insert `x` after every section not listed after it (equal ones keep
/// their order).
pub open spec fn insert_section(sorted: Seq<SectionInfo>, x: SectionInfo) -> Seq<SectionInfo>
    decreases sorted.len(),
{
    if sorted.len() == 0 {
        seq![x]
    } else if !section_precedes(x, sorted.last()) {
        sorted.push(x)
    } else {
        insert_section(sorted.drop_last(), x).push(sorted.last())
    }
}

/// The sections in listing order (a stable sort).
pub open spec fn order_sections_spec(s: Seq<SectionInfo>) -> Seq<SectionInfo>
    decreases s.len(),
{
    if s.len() == 0 {
        Seq::empty()
    } else {
        insert_section(order_sections_spec(s.drop_last()), s.last())
    }
}

fn precedes_exec(a: &SectionInfo, b: &SectionInfo) -> (r: bool)
    ensures
        r == section_precedes(*a, *b),
{
    (a.is_active && !b.is_active) || (a.is_active == b.is_active && !text_le_exec(
        b.created_at.as_str(),
        a.created_at.as_str(),
    ))
}

fn insert_section_exec(sorted: &mut Vec<SectionInfo>, x: SectionInfo)
    ensures
        final(sorted)@ == insert_section(old(sorted)@, x),
    decreases old(sorted)@.len(),
{
    if sorted.len() == 0 {
        sorted.push(x);
    } else {
        let n = sorted.len();
        if !precedes_exec(&x, &sorted[n - 1]) {
            sorted.push(x);
        } else {
            let ghost before = sorted@;
            let last = sorted.pop().unwrap();
            assert(sorted@ =~= before.drop_last());
            insert_section_exec(sorted, x);
            sorted.push(last);
        }
    }
}

/// The sections in listing order: the active one first, then by creation
/// time, sections that tie keeping their order.
pub fn order_sections(v: Vec<SectionInfo>) -> (r: Vec<SectionInfo>)
    ensures
        r@ == order_sections_spec(v@),
{
    let ghost all = v@;
    let total: usize = v.len();
    let mut rest = v;
    let mut sorted: Vec<SectionInfo> = Vec::new();
    let mut k: usize = 0;
    assert(all.take(0) =~= Seq::<SectionInfo>::empty());
    assert(all.skip(0) =~= all);
    while rest.len() > 0
        invariant
            rest@.len() + k == all.len(),
            all.len() == total,
            rest@ == all.skip(k as int),
            sorted@ == order_sections_spec(all.take(k as int)),
        decreases rest@.len(),
    {
        let x = rest.remove(0);
        proof {
            assert(x == all[k as int]);
            assert(rest@ =~= all.skip(k + 1));
            assert(all.take(k + 1).drop_last() =~= all.take(k as int));
            assert(all.take(k + 1).last() == all[k as int]);
        }
        insert_section_exec(&mut sorted, x);
        k = k + 1;
    }
    assert(all.take(all.len() as int) =~= all);
    sorted
}

proof fn lemma_precedes_asym(a: SectionInfo, b: SectionInfo)
    ensures
        section_precedes(a, b) ==> !section_precedes(b, a),
{
    lemma_text_le_total(a.created_at@, b.created_at@);
}

proof fn lemma_not_precedes_trans(a: SectionInfo, b: SectionInfo, c: SectionInfo)
    requires
        !section_precedes(a, b),
        !section_precedes(b, c),
    ensures
        !section_precedes(a, c),
{
    if a.is_active == b.is_active && b.is_active == c.is_active {
        lemma_text_le_trans(c.created_at@, b.created_at@, a.created_at@);
    }
}

/// Listed in order: no section comes after one it precedes.
pub open spec fn sections_ordered(s: Seq<SectionInfo>) -> bool {
    forall|i: int, j: int| 0 <= i < j < s.len() ==> !section_precedes(#[trigger] s[j], #[trigger] s[i])
}

proof fn lemma_insert_section(sorted: Seq<SectionInfo>, x: SectionInfo)
    requires
        sections_ordered(sorted),
    ensures
        insert_section(sorted, x).len() == sorted.len() + 1,
        sections_ordered(insert_section(sorted, x)),
        insert_section(sorted, x).to_multiset() == sorted.to_multiset().insert(x),
    decreases sorted.len(),
{
    broadcast use vstd::multiset::group_multiset_axioms;
    let ins = insert_section(sorted, x);
    if sorted.len() == 0 {
        assert(ins =~= sorted.push(x));
        vstd::seq_lib::to_multiset_build(sorted, x);
    } else if !section_precedes(x, sorted.last()) {
        let n = sorted.len();
        assert forall|i: int, j: int| 0 <= i < j < ins.len() implies !section_precedes(
            #[trigger] ins[j],
            #[trigger] ins[i],
        ) by {
            if j == n {
                assert(ins[j] == x);
                assert(ins[i] == sorted[i]);
                if i < n - 1 {
                    assert(!section_precedes(sorted[n - 1], sorted[i]));
                    lemma_not_precedes_trans(x, sorted[n - 1], sorted[i]);
                }
            } else {
                assert(ins[i] == sorted[i] && ins[j] == sorted[j]);
            }
        }
        vstd::seq_lib::to_multiset_build(sorted, x);
    } else {
        let dl = sorted.drop_last();
        let last = sorted.last();
        let n = sorted.len();
        assert forall|i: int, j: int| 0 <= i < j < dl.len() implies !section_precedes(
            #[trigger] dl[j],
            #[trigger] dl[i],
        ) by {
            assert(dl[i] == sorted[i] && dl[j] == sorted[j]);
        }
        lemma_insert_section(dl, x);
        let sub = insert_section(dl, x);
        assert(ins == sub.push(last));
        lemma_precedes_asym(x, last);
        assert forall|i: int, j: int| 0 <= i < j < ins.len() implies !section_precedes(
            #[trigger] ins[j],
            #[trigger] ins[i],
        ) by {
            if j == n {
                assert(ins[j] == last);
                assert(ins[i] == sub[i]);
                if sub[i] != x {
                    vstd::seq_lib::to_multiset_contains(sub, sub[i]);
                    assert(sub.contains(sub[i]));
                    assert(sub.to_multiset().count(sub[i]) > 0);
                    assert(dl.to_multiset().insert(x).count(sub[i]) > 0);
                    assert(dl.to_multiset().count(sub[i]) > 0);
                    vstd::seq_lib::to_multiset_contains(dl, sub[i]);
                    assert(dl.contains(sub[i]));
                    let m = choose|m: int| 0 <= m < dl.len() && dl[m] == sub[i];
                    assert(sorted[m] == dl[m]);
                }
            } else {
                assert(ins[i] == sub[i] && ins[j] == sub[j]);
            }
        }
        assert(ins.to_multiset() =~= sorted.to_multiset().insert(x)) by {
            assert(sorted =~= dl.push(last));
            vstd::seq_lib::to_multiset_build(sub, last);
            vstd::seq_lib::to_multiset_build(dl, last);
        }
    }
}

/// Listing sections puts them in order (the active one first, then by
/// creation time) and neither loses nor adds any: the result holds the
/// same sections, as often as the input does.
pub proof fn law_sections_listed_in_order(s: Seq<SectionInfo>)
    ensures
        sections_ordered(order_sections_spec(s)),
        order_sections_spec(s).to_multiset() == s.to_multiset(),
    decreases s.len(),
{
    broadcast use vstd::multiset::group_multiset_axioms;
    if s.len() == 0 {
        assert(s =~= Seq::<SectionInfo>::empty());
        assert(order_sections_spec(s) =~= s);
    } else {
        law_sections_listed_in_order(s.drop_last());
        lemma_insert_section(order_sections_spec(s.drop_last()), s.last());
        assert(s =~= s.drop_last().push(s.last()));
        vstd::seq_lib::to_multiset_build(s.drop_last(), s.last());
    }
}

// ---------------------------------------------------------------------------
// Creating a section
// ---------------------------------------------------------------------------

/// The slug of a new section named `name`; an error when the name has no
/// letter or digit to make one from.
pub fn new_section_slug(name: &str) -> (r: Result<String, String>)
    ensures
        match r {
            Ok(s) => s@ == slug_of(dashed(lowercase_of(name@))) && s@.len() > 0,
            Err(e) => slug_of(dashed(lowercase_of(name@))).len() == 0 && e@ == "Section name cannot be empty"@,
        },
{
    let slug = crate::project::slugify(name);
    if slug.as_str().is_empty() {
        Err("Section name cannot be empty".to_string())
    } else {
        Ok(slug)
    }
}

// ---------------------------------------------------------------------------
// Waiting for a board or currency lock
// ---------------------------------------------------------------------------

/// How long to keep trying a held lock before giving up, in milliseconds.
pub const LOCK_TIMEOUT_MS: u64 = 10_000;

/// The pause between tries at a held lock, in milliseconds.
pub const LOCK_RETRY_MS: u64 = 50;

/// What to do after a try at a lock.
#[derive(Debug, Clone, Copy, PartialEq, Eq, Structural)]
pub enum LockStep {
    /// The lock is held: do the work, then release it.
    Proceed,
    /// Sleep `LOCK_RETRY_MS` and try again.
    Wait,
    /// Stop waiting: the lock has been held past the timeout.
    GiveUp,
}

/// After a try at a lock that `waited_ms` milliseconds of waiting preceded:
/// proceed when it was acquired, give up once the wait is past the
/// timeout, and otherwise wait and try again.
pub fn lock_step(acquired: bool, waited_ms: u64) -> (s: LockStep)
    ensures
        acquired ==> s == LockStep::Proceed,
        !acquired && waited_ms > LOCK_TIMEOUT_MS ==> s == LockStep::GiveUp,
        !acquired && waited_ms <= LOCK_TIMEOUT_MS ==> s == LockStep::Wait,
{
    if acquired {
        LockStep::Proceed
    } else if waited_ms > LOCK_TIMEOUT_MS {
        LockStep::GiveUp
    } else {
        LockStep::Wait
    }
}

/// The error for a board lock held past the timeout.
pub fn board_lock_timeout_msg(lock_path: &str) -> (r: String)
    ensures
        r@ == "board.lock held for >10s \u{2014} possible stale lock from hung process. Lock file: "@ + lock_path@,
{
    let mut v: Vec<char> = Vec::new();
    push_str(&mut v, "board.lock held for >10s \u{2014} possible stale lock from hung process. Lock file: ");
    push_str(&mut v, lock_path);
    string_from_chars(&v)
}

/// The error for the currency lock held past the timeout.
pub fn currency_lock_timeout_msg(lock_path: &str) -> (r: String)
    ensures
        r@ == "currency.lock held for >10s \u{2014} stale lock. Lock file: "@ + lock_path@,
{
    let mut v: Vec<char> = Vec::new();
    push_str(&mut v, "currency.lock held for >10s \u{2014} stale lock. Lock file: ");
    push_str(&mut v, lock_path);
    string_from_chars(&v)
}

} // verus!
