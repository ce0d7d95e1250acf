//! Seats of the team: the roster of role slots, the Assembly Line's speaking
//! order and its on/off state, and the pruning of a removed seat.
use vstd::prelude::*;

use crate::board::stamp_epoch;
use crate::project::heartbeat_fits;
use crate::text::{push_chars, push_str, str_eq, string_from_chars, texts, u64_dec};
use crate::timefmt::{bytes_of, parse_iso_epoch, lemma_epoch_nonneg, iso_fields};

verus! {

// ---------------------------------------------------------------------------
// Seat labels
// ---------------------------------------------------------------------------

/// The label of a seat: `role:instance`.
pub open spec fn seat_label(role: Seq<char>, instance: int) -> Seq<char> {
    role + ":"@ + crate::text::dec_int(instance)
}

fn seat_label_u64(role: &str, instance: u64) -> (r: String)
    ensures
        r@ == seat_label(role@, instance as int),
{
    let mut v: Vec<char> = Vec::new();
    push_str(&mut v, role);
    push_str(&mut v, ":");
    let d = u64_dec(instance);
    push_chars(&mut v, &d);
    proof {
        reveal_strlit(":");
    }
    string_from_chars(&v)
}

fn epoch_of_text(t: &str) -> (r: Option<u64>)
    requires
        heartbeat_fits(t@),
    ensures
        r == match stamp_epoch(t@) {
            Some(e) => Some(e as u64),
            None => None::<u64>,
        },
        r is Some ==> r->0 == stamp_epoch(t@)->0,
{
    proof {
        assert(bytes_of(t) == vstd::utf8::encode_utf8(t@));
        match iso_fields(bytes_of(t)) {
            Some(f) => lemma_epoch_nonneg(f),
            None => {},
        }
    }
    parse_iso_epoch(t)
}

// ---------------------------------------------------------------------------
// Assembly Line
// ---------------------------------------------------------------------------

/// A binding as the Assembly Line reads it: role and instance when present
/// as text and as an unsigned number, status and heartbeat text (empty when
/// missing).
#[derive(Debug, Clone)]
pub struct AssemblyCandidate {
    pub role: Option<String>,
    pub instance: Option<u64>,
    pub status: String,
    pub last_heartbeat: String,
}

/// Bindings with a heartbeat older than this are zombies, not seats.
pub const ASSEMBLY_SEAT_FRESHNESS_SECS: u64 = 90;

/// A binding takes part in the rotation: active or idle, with a heartbeat
/// that parses and is at most 90 seconds old, and with a role and instance.
pub open spec fn assembly_eligible(b: AssemblyCandidate, now: u64) -> bool {
    &&& (b.status@ == "active"@ || b.status@ == "idle"@)
    &&& match stamp_epoch(b.last_heartbeat@) {
        Some(t) => (if now >= t { now - t } else { 0 }) <= ASSEMBLY_SEAT_FRESHNESS_SECS,
        None => false,
    }
    &&& b.role is Some
    &&& b.instance is Some
}

/// The rotation order: the labels of the eligible bindings, in order.
pub open spec fn assembly_order(bs: Seq<AssemblyCandidate>, now: u64) -> Seq<Seq<char>>
    decreases bs.len(),
{
    if bs.len() == 0 {
        Seq::empty()
    } else if assembly_eligible(bs.last(), now) {
        assembly_order(bs.drop_last(), now).push(
            seat_label(bs.last().role->0@, bs.last().instance->0 as int),
        )
    } else {
        assembly_order(bs.drop_last(), now)
    }
}

/// The seats of the Assembly Line rotation, as `role:instance`, in the
/// order of the bindings, at `now` seconds since the epoch.
pub fn assembly_seats(bindings: &Vec<AssemblyCandidate>, now: u64) -> (v: Vec<String>)
    requires
        forall|i: int| 0 <= i < bindings@.len() ==> heartbeat_fits((#[trigger] bindings@[i]).last_heartbeat@),
    ensures
        texts(v@) == assembly_order(bindings@, now),
{
    let mut v: Vec<String> = Vec::new();
    let mut i: usize = 0;
    assert(bindings@.take(0) =~= Seq::<AssemblyCandidate>::empty());
    while i < bindings.len()
        invariant
            i <= bindings.len(),
            forall|k: int| 0 <= k < bindings@.len() ==> heartbeat_fits((#[trigger] bindings@[k]).last_heartbeat@),
            texts(v@) == assembly_order(bindings@.take(i as int), now),
        decreases bindings.len() - i,
    {
        let b = &bindings[i];
        proof {
            assert(bindings@.take(i + 1).drop_last() =~= bindings@.take(i as int));
            assert(bindings@.take(i + 1).last() == *b);
            reveal_strlit("active");
            reveal_strlit("idle");
        }
        let st_ok = str_eq(b.status.as_str(), "active") || str_eq(b.status.as_str(), "idle");
        let fresh = match epoch_of_text(b.last_heartbeat.as_str()) {
            Some(t) => {
                let age: u64 = if now >= t {
                    now - t
                } else {
                    0
                };
                age <= ASSEMBLY_SEAT_FRESHNESS_SECS
            },
            None => false,
        };
        if st_ok && fresh {
            match (&b.role, b.instance) {
                (Some(role), Some(inst)) => {
                    let ghost before = texts(v@);
                    v.push(seat_label_u64(role.as_str(), inst));
                    proof {
                        assert(texts(v@) =~= before.push(seat_label(role@, inst as int)));
                    }
                },
                _ => {},
            }
        }
        i = i + 1;
    }
    assert(bindings@.take(bindings.len() as int) =~= bindings@);
    v
}

/// The Assembly Line state: on or off, who holds the mic, the rotation,
/// and when and by whom it was started.
#[derive(Debug, Clone)]
pub struct AssemblyState {
    pub active: bool,
    pub current_speaker: Option<String>,
    pub rotation_order: Vec<String>,
    pub started_at: Option<String>,
    pub started_by: Option<String>,
}

pub open spec fn discussion_active_msg() -> Seq<char> {
    "Cannot enable Assembly Line while a discussion is active. End the discussion first via discussion_control(end_discussion)."@
}

pub open spec fn no_seats_msg() -> Seq<char> {
    "Cannot enable Assembly Line: no active seats with fresh heartbeats. (Bindings older than 90s are excluded as zombies \u{2014} V3 rule 5. If you expect a seat to be eligible, have it call project_join again.)"@
}

pub open spec fn unknown_action_msg(action: Seq<char>) -> Seq<char> {
    "Unknown assembly action: '"@ + action + "'. Valid: enable, disable"@
}

/// The state after `action`: `enable` (refused while a discussion is
/// active, or with no seats) puts the first seat of `order` on the mic;
/// `disable` clears everything; anything else is refused.
pub fn assembly_transition(
    action: &str,
    discussion_active: bool,
    order: Vec<String>,
    now: &str,
    actor: &str,
) -> (r: Result<AssemblyState, String>)
    ensures
        action@ == "enable"@ ==> match r {
            Ok(s) => !discussion_active && order@.len() > 0 && s.active && s.current_speaker is Some
                && s.current_speaker->0@ == order@[0]@ && s.rotation_order@ == order@ && s.started_at is Some
                && s.started_at->0@ == now@ && s.started_by is Some && s.started_by->0@ == actor@,
            Err(e) => (discussion_active && e@ == discussion_active_msg()) || (!discussion_active && order@.len()
                == 0 && e@ == no_seats_msg()),
        },
        action@ == "disable"@ ==> match r {
            Ok(s) => !s.active && s.current_speaker is None && s.rotation_order@.len() == 0 && s.started_at is None
                && s.started_by is None,
            Err(_) => false,
        },
        action@ != "enable"@ && action@ != "disable"@ ==> match r {
            Ok(_) => false,
            Err(e) => e@ == unknown_action_msg(action@),
        },
{
    proof {
        reveal_strlit("enable");
        reveal_strlit("disable");
        assert("enable"@.len() != "disable"@.len());
    }
    if str_eq(action, "enable") {
        if discussion_active {
            return Err(
                "Cannot enable Assembly Line while a discussion is active. End the discussion first via discussion_control(end_discussion).".to_string(),
            );
        }
        if order.len() == 0 {
            return Err(
                "Cannot enable Assembly Line: no active seats with fresh heartbeats. (Bindings older than 90s are excluded as zombies \u{2014} V3 rule 5. If you expect a seat to be eligible, have it call project_join again.)".to_string(),
            );
        }
        let first = order[0].clone();
        Ok(
            AssemblyState {
                active: true,
                current_speaker: Some(first),
                rotation_order: order,
                started_at: Some(now.to_string()),
                started_by: Some(actor.to_string()),
            },
        )
    } else if str_eq(action, "disable") {
        Ok(
            AssemblyState {
                active: false,
                current_speaker: None,
                rotation_order: Vec::new(),
                started_at: None,
                started_by: None,
            },
        )
    } else {
        let mut v: Vec<char> = Vec::new();
        push_str(&mut v, "Unknown assembly action: '");
        push_str(&mut v, action);
        push_str(&mut v, "'. Valid: enable, disable");
        proof {
            reveal_strlit("Unknown assembly action: '");
            reveal_strlit("'. Valid: enable, disable");
        }
        Err(string_from_chars(&v))
    }
}

// ---------------------------------------------------------------------------
// Roster slots
// ---------------------------------------------------------------------------

proof fn lemma_prefix_present(existing: Seq<u32>, m: int)
    requires
        0 <= m <= u32::MAX + 1,
        forall|j: u32| j < m ==> #[trigger] existing.contains(j),
    ensures
        m <= existing.len(),
{
    let mapped = existing.map_values(|x: u32| x as int);
    let a = vstd::set_lib::set_int_range(0, m);
    let b = mapped.to_set();
    assert forall|j: int| a.contains(j) implies b.contains(j) by {
        let ju = j as u32;
        assert(existing.contains(ju));
        let k = choose|k: int| 0 <= k < existing.len() && existing[k] == j as u32;
        assert(mapped[k] == j);
    }
    mapped.lemma_cardinality_of_set();
    vstd::set_lib::lemma_int_range(0, m);
    assert(b.finite()) by {
        vstd::seq_lib::seq_to_set_is_finite(mapped);
    }
    vstd::set_lib::lemma_len_subset(a, b);
}

/// The smallest instance number that `existing` does not hold.
pub fn first_free_instance(existing: &Vec<u32>) -> (n: u32)
    requires
        existing@.len() <= u32::MAX,
    ensures
        !existing@.contains(n),
        forall|j: u32| j < n ==> existing@.contains(j),
{
    let mut n: u32 = 0;
    loop
        invariant
            existing@.len() <= u32::MAX,
            forall|j: u32| j < n ==> existing@.contains(j),
            n <= existing@.len(),
        decreases existing@.len() - n,
    {
        let mut found = false;
        let mut i: usize = 0;
        while i < existing.len()
            invariant
                i <= existing.len(),
                found == exists|k: int| 0 <= k < i && existing@[k] == n,
            decreases existing.len() - i,
        {
            if existing[i] == n {
                found = true;
            }
            i = i + 1;
        }
        if !found {
            return n;
        }
        proof {
            assert(existing@[choose|k: int| 0 <= k < existing@.len() && existing@[k] == n] == n);
            assert(existing@.contains(n));
            assert forall|j: u32| j < n + 1 implies #[trigger] existing@.contains(j) by {
                if j < n {
                    assert(existing@.contains(j));
                }
            }
            lemma_prefix_present(existing@, n + 1);
        }
        n = n + 1;
    }
}

/// A roster entry as the slot numbering reads it: role text and unsigned
/// instance number when present.
#[derive(Debug, Clone)]
pub struct RosterKey {
    pub role: Option<String>,
    pub instance: Option<u64>,
}

/// The instance numbers (cut to 32 bits) of the roster entries of `role`.
pub open spec fn role_instances(keys: Seq<RosterKey>, role: Seq<char>) -> Seq<u32>
    decreases keys.len(),
{
    if keys.len() == 0 {
        Seq::empty()
    } else {
        let d = role_instances(keys.drop_last(), role);
        let k = keys.last();
        if k.role is Some && k.role->0@ == role && k.instance is Some {
            d.push(k.instance->0 as u32)
        } else {
            d
        }
    }
}

proof fn lemma_role_instances_len(keys: Seq<RosterKey>, role: Seq<char>)
    ensures
        role_instances(keys, role).len() <= keys.len(),
    decreases keys.len(),
{
    if keys.len() > 0 {
        lemma_role_instances_len(keys.drop_last(), role);
    }
}

/// The instance a new slot of `role` gets: the first number no slot of the
/// role holds.
pub fn next_roster_instance(roster: &Vec<RosterKey>, role: &str) -> (n: u32)
    requires
        roster@.len() <= u32::MAX,
    ensures
        !role_instances(roster@, role@).contains(n),
        forall|j: u32| j < n ==> role_instances(roster@, role@).contains(j),
{
    let mut existing: Vec<u32> = Vec::new();
    let mut i: usize = 0;
    assert(roster@.take(0) =~= Seq::<RosterKey>::empty());
    while i < roster.len()
        invariant
            i <= roster.len(),
            existing@ == role_instances(roster@.take(i as int), role@),
        decreases roster.len() - i,
    {
        let k = &roster[i];
        proof {
            assert(roster@.take(i + 1).drop_last() =~= roster@.take(i as int));
            assert(roster@.take(i + 1).last() == *k);
        }
        match (&k.role, k.instance) {
            (Some(r), Some(inst)) => {
                if str_eq(r.as_str(), role) {
                    existing.push(inst as u32);
                }
            },
            _ => {},
        }
        i = i + 1;
    }
    assert(roster@.take(roster.len() as int) =~= roster@);
    proof {
        lemma_role_instances_len(roster@, role@);
    }
    first_free_instance(&existing)
}

/// A session binding as the roster's first seeding reads it (empty role,
/// instance 0 and empty claim time when missing).
#[derive(Debug, Clone)]
pub struct SeedBinding {
    pub role: String,
    pub instance: u64,
    pub claimed_at: String,
}

/// A roster slot seeded from a binding.
#[derive(Debug, Clone)]
pub struct RosterSeed {
    pub role: String,
    pub instance: u64,
    pub added_at: String,
}

pub open spec fn seed_view(s: RosterSeed) -> (Seq<char>, u64, Seq<char>) {
    (s.role@, s.instance, s.added_at@)
}

/// Does the seed list hold `role:instance`?
pub open spec fn has_seed(d: Seq<(Seq<char>, u64, Seq<char>)>, role: Seq<char>, instance: u64) -> bool {
    exists|i: int| 0 <= i < d.len() && (#[trigger] d[i]).0 == role && d[i].1 == instance
}

/// The roster seeded from the bindings: one slot per role and instance with
/// a role, in order, added when the binding was claimed (`now` when that
/// is unknown).
pub open spec fn seed_roster_spec(bs: Seq<SeedBinding>, now: Seq<char>) -> Seq<(Seq<char>, u64, Seq<char>)>
    decreases bs.len(),
{
    if bs.len() == 0 {
        Seq::empty()
    } else {
        let d = seed_roster_spec(bs.drop_last(), now);
        let b = bs.last();
        if b.role@.len() > 0 && !has_seed(d, b.role@, b.instance) {
            d.push(
                (
                    b.role@,
                    b.instance,
                    if b.claimed_at@.len() == 0 {
                        now
                    } else {
                        b.claimed_at@
                    },
                ),
            )
        } else {
            d
        }
    }
}

/// Seed an empty roster from the session bindings.
pub fn seed_roster(bindings: &Vec<SeedBinding>, now: &str) -> (r: Vec<RosterSeed>)
    ensures
        r@.map_values(|s: RosterSeed| seed_view(s)) == seed_roster_spec(bindings@, now@),
{
    let mut out: Vec<RosterSeed> = Vec::new();
    let mut i: usize = 0;
    assert(bindings@.take(0) =~= Seq::<SeedBinding>::empty());
    assert(out@.map_values(|s: RosterSeed| seed_view(s)) =~= Seq::<(Seq<char>, u64, Seq<char>)>::empty());
    while i < bindings.len()
        invariant
            i <= bindings.len(),
            out@.map_values(|s: RosterSeed| seed_view(s)) == seed_roster_spec(bindings@.take(i as int), now@),
        decreases bindings.len() - i,
    {
        let b = &bindings[i];
        let ghost d = out@.map_values(|s: RosterSeed| seed_view(s));
        proof {
            assert(bindings@.take(i + 1).drop_last() =~= bindings@.take(i as int));
            assert(bindings@.take(i + 1).last() == *b);
        }
        let mut already = false;
        let mut j: usize = 0;
        while j < out.len()
            invariant
                j <= out.len(),
                d == out@.map_values(|s: RosterSeed| seed_view(s)),
                already == exists|k: int| 0 <= k < j && (#[trigger] d[k]).0 == b.role@ && d[k].1 == b.instance,
            decreases out.len() - j,
        {
            proof {
                assert(d[j as int] == seed_view(out@[j as int]));
            }
            if str_eq(out[j].role.as_str(), b.role.as_str()) && out[j].instance == b.instance {
                already = true;
            }
            j = j + 1;
        }
        if !already && !b.role.as_str().is_empty() {
            let added_at = if b.claimed_at.as_str().is_empty() {
                now.to_string()
            } else {
                b.claimed_at.clone()
            };
            out.push(RosterSeed { role: b.role.clone(), instance: b.instance, added_at });
            proof {
                assert(out@.map_values(|s: RosterSeed| seed_view(s)) =~= d.push(
                    (b.role@, b.instance, if b.claimed_at@.len() == 0 { now@ } else { b.claimed_at@ }),
                ));
            }
        }
        i = i + 1;
    }
    assert(bindings@.take(bindings.len() as int) =~= bindings@);
    out
}

// ---------------------------------------------------------------------------
// Removing a slot
// ---------------------------------------------------------------------------

/// A roster entry or binding as slot removal reads it: role text and signed
/// instance number when present.
#[derive(Debug, Clone)]
pub struct SlotKey {
    pub role: Option<String>,
    pub instance: Option<i64>,
}

/// The entry is the slot `role:instance`.
pub open spec fn is_slot(k: SlotKey, role: Seq<char>, instance: i32) -> bool {
    k.role is Some && k.role->0@ == role && k.instance == Some(instance as i64)
}

/// Which entries stay when slot `role:instance` goes.
pub fn slot_keep_mask(keys: &Vec<SlotKey>, role: &str, instance: i32) -> (v: Vec<bool>)
    ensures
        v@.len() == keys@.len(),
        forall|i: int| 0 <= i < v@.len() ==> v@[i] == !is_slot(#[trigger] keys@[i], role@, instance),
{
    let mut v: Vec<bool> = Vec::new();
    let mut i: usize = 0;
    while i < keys.len()
        invariant
            i <= keys.len(),
            v@.len() == i,
            forall|k: int| 0 <= k < i ==> v@[k] == !is_slot(#[trigger] keys@[k], role@, instance),
        decreases keys.len() - i,
    {
        let k = &keys[i];
        let hit = match (&k.role, k.instance) {
            (Some(r), Some(n)) => str_eq(r.as_str(), role) && n == instance as i64,
            _ => false,
        };
        v.push(!hit);
        i = i + 1;
    }
    v
}

pub open spec fn no_slot_msg(role: Seq<char>, instance: i32) -> Seq<char> {
    "No roster slot found for "@ + seat_label(role, instance as int)
}

/// The roster entries that stay when slot `role:instance` is removed; an
/// error when the roster has no such slot.
pub fn roster_removal(roster: &Vec<SlotKey>, role: &str, instance: i32) -> (r: Result<Vec<bool>, String>)
    ensures
        match r {
            Ok(v) => v@.len() == roster@.len() && (forall|i: int|
                0 <= i < v@.len() ==> v@[i] == !is_slot(#[trigger] roster@[i], role@, instance)) && exists|i: int|
                0 <= i < roster@.len() && is_slot(#[trigger] roster@[i], role@, instance),
            Err(e) => e@ == no_slot_msg(role@, instance) && forall|i: int|
                0 <= i < roster@.len() ==> !is_slot(#[trigger] roster@[i], role@, instance),
        },
{
    let v = slot_keep_mask(roster, role, instance);
    let mut i: usize = 0;
    while i < v.len()
        invariant
            i <= v.len(),
            v@.len() == roster@.len(),
            forall|k: int| 0 <= k < v@.len() ==> v@[k] == !is_slot(#[trigger] roster@[k], role@, instance),
            forall|k: int| 0 <= k < i ==> !is_slot(#[trigger] roster@[k], role@, instance),
        decreases v.len() - i,
    {
        if !v[i] {
            proof {
                assert(is_slot(roster@[i as int], role@, instance));
            }
            return Ok(v);
        }
        i = i + 1;
    }
    let mut m: Vec<char> = Vec::new();
    push_str(&mut m, "No roster slot found for ");
    push_str(&mut m, role);
    push_str(&mut m, ":");
    let d = crate::text::i64_dec(instance as i64);
    push_chars(&mut m, &d);
    proof {
        reveal_strlit("No roster slot found for ");
        reveal_strlit(":");
        assert(m@ =~= no_slot_msg(role@, instance));
    }
    Err(string_from_chars(&m))
}

/// The floor of a protocol file as pruning reads it: the rotation and hand
/// queue (text entries, or `None` for other values) and the speaker and
/// moderator when they are text.
#[derive(Debug, Clone)]
pub struct FloorRefs {
    pub rotation_order: Option<Vec<Option<String>>>,
    pub current_speaker: Option<String>,
    pub moderator: Option<String>,
    pub hand_queue: Option<Vec<Option<String>>>,
}

/// What pruning a removed seat does to a floor: the entries of the rotation
/// and the hand queue that stay, whether the speaker and the moderator are
/// cleared, and whether anything changed.
#[derive(Debug, Clone)]
pub struct FloorPrune {
    pub rotation_keep: Option<Vec<bool>>,
    pub clear_speaker: bool,
    pub clear_moderator: bool,
    pub hand_keep: Option<Vec<bool>>,
    pub changed: bool,
}

pub open spec fn refers_to(e: Option<String>, label: Seq<char>) -> bool {
    e is Some && e->0@ == label
}

fn keep_other_refs(v: &Vec<Option<String>>, label: &str) -> (r: (Vec<bool>, bool))
    ensures
        r.0@.len() == v@.len(),
        forall|i: int| 0 <= i < v@.len() ==> r.0@[i] == !refers_to(#[trigger] v@[i], label@),
        r.1 == exists|i: int| 0 <= i < v@.len() && refers_to(#[trigger] v@[i], label@),
{
    let mut keep: Vec<bool> = Vec::new();
    let mut any = false;
    let mut i: usize = 0;
    while i < v.len()
        invariant
            i <= v.len(),
            keep@.len() == i,
            forall|k: int| 0 <= k < i ==> keep@[k] == !refers_to(#[trigger] v@[k], label@),
            any == exists|k: int| 0 <= k < i && refers_to(#[trigger] v@[k], label@),
        decreases v.len() - i,
    {
        let hit = match &v[i] {
            Some(s) => str_eq(s.as_str(), label),
            None => false,
        };
        keep.push(!hit);
        if hit {
            any = true;
        }
        i = i + 1;
    }
    (keep, any)
}

/// Clear every reference to seat `label` from a floor.
pub fn prune_floor(floor: &FloorRefs, label: &str) -> (p: FloorPrune)
    ensures
        match (floor.rotation_order, p.rotation_keep) {
            (Some(v), Some(k)) => k@.len() == v@.len() && forall|i: int|
                0 <= i < v@.len() ==> k@[i] == !refers_to(#[trigger] v@[i], label@),
            (None, None) => true,
            _ => false,
        },
        match (floor.hand_queue, p.hand_keep) {
            (Some(v), Some(k)) => k@.len() == v@.len() && forall|i: int|
                0 <= i < v@.len() ==> k@[i] == !refers_to(#[trigger] v@[i], label@),
            (None, None) => true,
            _ => false,
        },
        p.clear_speaker == refers_to(floor.current_speaker, label@),
        p.clear_moderator == refers_to(floor.moderator, label@),
        p.changed == (p.clear_speaker || p.clear_moderator || (match floor.rotation_order {
            Some(v) => exists|i: int| 0 <= i < v@.len() && refers_to(#[trigger] v@[i], label@),
            None => false,
        }) || (match floor.hand_queue {
            Some(v) => exists|i: int| 0 <= i < v@.len() && refers_to(#[trigger] v@[i], label@),
            None => false,
        })),
{
    let (rotation_keep, rot_hit) = match &floor.rotation_order {
        Some(v) => {
            let (k, any) = keep_other_refs(v, label);
            (Some(k), any)
        },
        None => (None, false),
    };
    let (hand_keep, hand_hit) = match &floor.hand_queue {
        Some(v) => {
            let (k, any) = keep_other_refs(v, label);
            (Some(k), any)
        },
        None => (None, false),
    };
    let clear_speaker = match &floor.current_speaker {
        Some(s) => str_eq(s.as_str(), label),
        None => false,
    };
    let clear_moderator = match &floor.moderator {
        Some(s) => str_eq(s.as_str(), label),
        None => false,
    };
    FloorPrune {
        rotation_keep,
        clear_speaker,
        clear_moderator,
        hand_keep,
        changed: rot_hit || clear_speaker || clear_moderator || hand_hit,
    }
}

// ---------------------------------------------------------------------------
// Roster status
// ---------------------------------------------------------------------------

/// A session binding as the roster view reads it.
#[derive(Debug, Clone)]
pub struct StatusBinding {
    pub role: Option<String>,
    pub instance: Option<u64>,
    pub status: Option<String>,
    pub last_heartbeat: String,
    pub activity: Option<String>,
    pub session_id: Option<String>,
}

/// The binding holds slot `role:instance` and is active.
pub open spec fn holds_slot(b: StatusBinding, role: Seq<char>, instance: u32) -> bool {
    &&& b.role is Some && b.role->0@ == role
    &&& b.instance == Some(instance as u64)
    &&& b.status is Some && b.status->0@ == "active"@
}

/// The first binding that holds the slot.
pub open spec fn slot_holder(bs: Seq<StatusBinding>, role: Seq<char>, instance: u32) -> Option<StatusBinding>
    decreases bs.len(),
{
    if bs.len() == 0 {
        None
    } else if holds_slot(bs[0], role, instance) {
        Some(bs[0])
    } else {
        slot_holder(bs.drop_first(), role, instance)
    }
}

pub open spec fn opt_view(o: Option<String>) -> Option<Seq<char>> {
    match o {
        Some(s) => Some(s@),
        None => None,
    }
}

/// A slot's status and session: vacant with no holder or a holder whose
/// heartbeat is older than `timeout` seconds (or does not parse); else the
/// holder's activity (`standby` when it has none) and session.
pub open spec fn slot_status_spec(
    role: Seq<char>,
    instance: u32,
    bs: Seq<StatusBinding>,
    now: u64,
    timeout: u64,
) -> (Seq<char>, Option<Seq<char>>) {
    match slot_holder(bs, role, instance) {
        None => ("vacant"@, None),
        Some(b) => {
            let stale = match stamp_epoch(b.last_heartbeat@) {
                Some(t) => (if now >= t { now - t } else { 0 }) > timeout,
                None => true,
            };
            if stale {
                ("vacant"@, None)
            } else {
                (
                    match b.activity {
                        Some(a) => a@,
                        None => "standby"@,
                    },
                    opt_view(b.session_id),
                )
            }
        },
    }
}

/// The status and session of slot `role:instance`.
pub fn slot_status(role: &str, instance: u32, bindings: &Vec<StatusBinding>, now: u64, timeout: u64) -> (r: (
    String,
    Option<String>,
))
    requires
        forall|i: int| 0 <= i < bindings@.len() ==> heartbeat_fits((#[trigger] bindings@[i]).last_heartbeat@),
    ensures
        r.0@ == slot_status_spec(role@, instance, bindings@, now, timeout).0,
        opt_view(r.1) == slot_status_spec(role@, instance, bindings@, now, timeout).1,
{
    proof {
        reveal_strlit("vacant");
        reveal_strlit("standby");
        reveal_strlit("active");
    }
    let mut i: usize = 0;
    assert(bindings@.skip(0) =~= bindings@);
    while i < bindings.len()
        invariant
            i <= bindings.len(),
            forall|k: int| 0 <= k < bindings@.len() ==> heartbeat_fits((#[trigger] bindings@[k]).last_heartbeat@),
            slot_holder(bindings@, role@, instance) == slot_holder(bindings@.skip(i as int), role@, instance),
        decreases bindings.len() - i,
    {
        let b = &bindings[i];
        proof {
            assert(bindings@.skip(i as int).drop_first() =~= bindings@.skip(i + 1));
            assert(bindings@.skip(i as int)[0] == *b);
        }
        let holds = match (&b.role, b.instance, &b.status) {
            (Some(r), Some(n), Some(st)) => str_eq(r.as_str(), role) && n == instance as u64 && str_eq(
                st.as_str(),
                "active",
            ),
            _ => false,
        };
        if holds {
            let stale = match epoch_of_text(b.last_heartbeat.as_str()) {
                Some(t) => {
                    let age: u64 = if now >= t {
                        now - t
                    } else {
                        0
                    };
                    age > timeout
                },
                None => true,
            };
            if stale {
                return ("vacant".to_string(), None);
            }
            let activity = match &b.activity {
                Some(a) => a.clone(),
                None => "standby".to_string(),
            };
            let sid = match &b.session_id {
                Some(s) => Some(s.clone()),
                None => None,
            };
            return (activity, sid);
        }
        i = i + 1;
    }
    assert(bindings@.skip(bindings.len() as int) =~= Seq::<StatusBinding>::empty());
    ("vacant".to_string(), None)
}

} // verus!
