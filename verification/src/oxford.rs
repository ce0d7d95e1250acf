//! Oxford-style debates: the debate's records and the gates an initiation
//! must pass.
use vstd::prelude::*;

use crate::currency::owned_str;
use crate::text::{chars_of, chars_starts_with, contains_text, has_prefix, str_eq, texts};

verus! {

/// A turn of the debate; `ended_at` is `None` for the turn under way.
#[derive(Debug, Clone)]
pub struct OxfordTurn {
    pub seat: String,
    pub started_at: String,
    pub ended_at: Option<String>,
}

/// The debate under way.
#[derive(Debug, Clone)]
pub struct ActiveOxfordDebate {
    pub debate_id: u64,
    pub moderator: String,
    pub side_a: Vec<String>,
    pub side_b: Vec<String>,
    pub audience: Vec<String>,
    pub premise: String,
    pub current_speaker: Option<String>,
    pub started_at: String,
    pub turn_history: Vec<OxfordTurn>,
    /// Reward shared by the winning side, in copper.
    pub winning_side_reward_copper: i64,
}

pub open spec fn is_human(seat: Seq<char>) -> bool {
    has_prefix(seat, "human:"@)
}

/// A human seat, or one in the active roster.
pub open spec fn in_roster(seat: Seq<char>, active: Seq<Seq<char>>) -> bool {
    is_human(seat) || active.contains(seat)
}

/// A seat holds two roles: the moderator on a side or in the audience, a seat
/// on both sides, or a debater also in the audience.
pub open spec fn role_conflict(
    moderator: Seq<char>,
    a: Seq<Seq<char>>,
    b: Seq<Seq<char>>,
    aud: Seq<Seq<char>>,
) -> bool {
    ||| a.contains(moderator) || b.contains(moderator) || aud.contains(moderator)
    ||| exists|i: int| 0 <= i < a.len() && (b.contains(#[trigger] a[i]) || aud.contains(a[i]))
    ||| exists|i: int| 0 <= i < b.len() && aud.contains(#[trigger] b[i])
}

/// Some participant is neither human nor in the active roster.
pub open spec fn outsider(
    moderator: Seq<char>,
    a: Seq<Seq<char>>,
    b: Seq<Seq<char>>,
    aud: Seq<Seq<char>>,
    active: Seq<Seq<char>>,
) -> bool {
    ||| !in_roster(moderator, active)
    ||| exists|i: int| 0 <= i < a.len() && !in_roster(#[trigger] a[i], active)
    ||| exists|i: int| 0 <= i < b.len() && !in_roster(#[trigger] b[i], active)
    ||| exists|i: int| 0 <= i < aud.len() && !in_roster(#[trigger] aud[i], active)
}

/// The first rule an initiation breaks, or `None` when it keeps them all.
pub open spec fn initiate_error(
    caller: Seq<char>,
    moderator: Seq<char>,
    a: Seq<Seq<char>>,
    b: Seq<Seq<char>>,
    aud: Seq<Seq<char>>,
    active: Seq<Seq<char>>,
) -> Option<Seq<char>> {
    if a.len() == 0 || b.len() == 0 {
        Some("[OxfordRequireMinOnePerSide]"@)
    } else if caller != moderator && !is_human(caller) {
        Some("[OxfordInitiationDenied]"@)
    } else if role_conflict(moderator, a, b, aud) {
        Some("[OxfordRoleConflict]"@)
    } else if outsider(moderator, a, b, aud, active) {
        Some("[OxfordSeatNotInRoster]"@)
    } else {
        None
    }
}

fn is_human_exec(seat: &str) -> (b: bool)
    ensures
        b == is_human(seat@),
{
    let s = chars_of(seat);
    let p = chars_of("human:");
    chars_starts_with(&s, &p)
}

fn in_roster_exec(seat: &str, active: &[String]) -> (b: bool)
    ensures
        b == in_roster(seat@, texts(active@)),
{
    is_human_exec(seat) || contains_text(active, seat)
}

/// Index of the first seat of `v` that `other` or `aud` also holds.
fn first_shared(v: &[String], other: &[String], aud: &[String]) -> (r: bool)
    ensures
        r == exists|i: int|
            0 <= i < texts(v@).len() && (texts(other@).contains(#[trigger] texts(v@)[i]) || texts(aud@).contains(
                texts(v@)[i],
            )),
{
    let ghost t = texts(v@);
    let mut i: usize = 0;
    while i < v.len()
        invariant
            i <= v.len(),
            t == texts(v@),
            forall|j: int| 0 <= j < i ==> !(texts(other@).contains(#[trigger] t[j]) || texts(aud@).contains(t[j])),
        decreases v.len() - i,
    {
        if contains_text(other, v[i].as_str()) || contains_text(aud, v[i].as_str()) {
            assert(t[i as int] == v@[i as int]@);
            return true;
        }
        i = i + 1;
    }
    false
}

fn all_in_roster(v: &[String], active: &[String]) -> (r: bool)
    ensures
        r == !exists|i: int| 0 <= i < texts(v@).len() && !in_roster(#[trigger] texts(v@)[i], texts(active@)),
{
    let ghost t = texts(v@);
    let mut i: usize = 0;
    while i < v.len()
        invariant
            i <= v.len(),
            t == texts(v@),
            forall|j: int| 0 <= j < i ==> in_roster(#[trigger] t[j], texts(active@)),
        decreases v.len() - i,
    {
        if !in_roster_exec(v[i].as_str(), active) {
            assert(t[i as int] == v@[i as int]@);
            return false;
        }
        i = i + 1;
    }
    true
}

/// The initiation rules, in order: both sides non-empty; the caller is the
/// moderator or a human; no seat holds two roles; every participant is
/// human or in the active roster. Returns the broken rule's error tag.
pub fn validate_initiate(
    caller: &str,
    moderator: &str,
    side_a: &[String],
    side_b: &[String],
    audience: &[String],
    active_seats: &[String],
) -> (r: Result<(), String>)
    ensures
        match r {
            Ok(()) => initiate_error(
                caller@,
                moderator@,
                texts(side_a@),
                texts(side_b@),
                texts(audience@),
                texts(active_seats@),
            ) is None,
            Err(m) => initiate_error(
                caller@,
                moderator@,
                texts(side_a@),
                texts(side_b@),
                texts(audience@),
                texts(active_seats@),
            ) == Some(m@),
        },
{
    if side_a.len() == 0 || side_b.len() == 0 {
        return Err(owned_str("[OxfordRequireMinOnePerSide]"));
    }
    if !str_eq(caller, moderator) && !is_human_exec(caller) {
        return Err(owned_str("[OxfordInitiationDenied]"));
    }
    if contains_text(side_a, moderator) || contains_text(side_b, moderator) || contains_text(audience, moderator) {
        return Err(owned_str("[OxfordRoleConflict]"));
    }
    let empty: Vec<String> = Vec::new();
    if first_shared(side_a, side_b, audience) || first_shared(side_b, empty.as_slice(), audience) {
        proof {
            assert(texts(empty@) =~= Seq::<Seq<char>>::empty());
        }
        return Err(owned_str("[OxfordRoleConflict]"));
    }
    proof {
        assert(texts(empty@) =~= Seq::<Seq<char>>::empty());
    }
    if !in_roster_exec(moderator, active_seats) || !all_in_roster(side_a, active_seats) || !all_in_roster(
        side_b,
        active_seats,
    ) || !all_in_roster(audience, active_seats) {
        return Err(owned_str("[OxfordSeatNotInRoster]"));
    }
    Ok(())
}

/// The largest debate id of an `initiate` event.
pub open spec fn max_id(ids: Seq<u64>) -> u64
    decreases ids.len(),
{
    if ids.len() == 0 {
        0
    } else {
        let m = max_id(ids.drop_last());
        if ids.last() > m {
            ids.last()
        } else {
            m
        }
    }
}

proof fn lemma_max_id(ids: Seq<u64>)
    ensures
        forall|i: int| 0 <= i < ids.len() ==> ids[i] <= max_id(ids),
        ids.len() == 0 || ids.contains(max_id(ids)),
    decreases ids.len(),
{
    if ids.len() > 0 {
        lemma_max_id(ids.drop_last());
        assert forall|i: int| 0 <= i < ids.len() implies ids[i] <= max_id(ids) by {
            if i < ids.len() - 1 {
                assert(ids[i] == ids.drop_last()[i]);
            }
        }
        if ids.last() <= max_id(ids.drop_last()) && ids.len() > 1 {
            let j = choose|j: int| 0 <= j < ids.drop_last().len() && ids.drop_last()[j] == max_id(ids.drop_last());
            assert(ids[j] == max_id(ids));
        }
        assert(ids[ids.len() - 1] == ids.last());
    }
}

/// The next debate id: one past the largest id of the `initiate` events
/// logged so far (`ids`), so 1 when there are none.
pub fn next_debate_id(ids: &Vec<u64>) -> (r: u64)
    requires
        forall|i: int| 0 <= i < ids@.len() ==> ids@[i] < u64::MAX,
    ensures
        r == max_id(ids@) + 1,
        forall|i: int| 0 <= i < ids@.len() ==> ids@[i] < r,
{
    let mut m: u64 = 0;
    let mut i: usize = 0;
    proof {
        lemma_max_id(ids@);
    }
    assert(ids@.take(0) =~= Seq::<u64>::empty());
    while i < ids.len()
        invariant
            i <= ids.len(),
            m == max_id(ids@.take(i as int)),
        decreases ids.len() - i,
    {
        proof {
            assert(ids@.take(i + 1).drop_last() =~= ids@.take(i as int));
        }
        if ids[i] > m {
            m = ids[i];
        }
        i = i + 1;
    }
    assert(ids@.take(ids.len() as int) =~= ids@);
    proof {
        if ids@.len() > 0 {
            let j = choose|j: int| 0 <= j < ids@.len() && ids@[j] == max_id(ids@);
        }
    }
    m + 1
}


/// Once both sides have a seat and the caller is the moderator or a human,
/// a seat holding two roles is refused as a role conflict, whatever else is
/// wrong: the moderator on a side or in the audience, a seat on both sides,
/// or a debater of either side also in the audience.
pub proof fn law_two_roles_conflict(
    caller: Seq<char>,
    moderator: Seq<char>,
    a: Seq<Seq<char>>,
    b: Seq<Seq<char>>,
    aud: Seq<Seq<char>>,
    active: Seq<Seq<char>>,
    seat: Seq<char>,
)
    requires
        a.len() > 0 && b.len() > 0,
        caller == moderator || has_prefix(caller, "human:"@),
        (seat == moderator && (a.contains(seat) || b.contains(seat) || aud.contains(seat))) || (a.contains(seat)
            && b.contains(seat)) || ((a.contains(seat) || b.contains(seat)) && aud.contains(seat)),
    ensures
        initiate_error(caller, moderator, a, b, aud, active) == Some("[OxfordRoleConflict]"@),
{
    if a.contains(seat) {
        let i = choose|i: int| 0 <= i < a.len() && a[i] == seat;
        assert(b.contains(a[i]) || aud.contains(a[i]) || seat == moderator);
    } else if b.contains(seat) {
        let i = choose|i: int| 0 <= i < b.len() && b[i] == seat;
        assert(aud.contains(b[i]) || seat == moderator);
    }
}


/// An empty side is refused first; then a caller who is neither the
/// moderator nor human; and an initiation where every seat holds one role
/// and every participant is human or in the active roster goes through.
pub proof fn law_initiate_rules(
    caller: Seq<char>,
    moderator: Seq<char>,
    a: Seq<Seq<char>>,
    b: Seq<Seq<char>>,
    aud: Seq<Seq<char>>,
    active: Seq<Seq<char>>,
)
    ensures
        a.len() == 0 || b.len() == 0 ==> initiate_error(caller, moderator, a, b, aud, active) == Some(
            "[OxfordRequireMinOnePerSide]"@,
        ),
        a.len() > 0 && b.len() > 0 && caller != moderator && !has_prefix(caller, "human:"@) ==> initiate_error(
            caller,
            moderator,
            a,
            b,
            aud,
            active,
        ) == Some("[OxfordInitiationDenied]"@),
        ({
            let one_role = forall|x: Seq<char>|
                #![trigger a.contains(x)]
                #![trigger b.contains(x)]
                #![trigger aud.contains(x)]
                {
                    &&& (a.contains(x) || b.contains(x) || aud.contains(x)) ==> x != moderator
                    &&& !(a.contains(x) && b.contains(x))
                    &&& !((a.contains(x) || b.contains(x)) && aud.contains(x))
                };
            let known = forall|x: Seq<char>|
                #![trigger a.contains(x)]
                #![trigger b.contains(x)]
                #![trigger aud.contains(x)]
                (x == moderator || a.contains(x) || b.contains(x) || aud.contains(x)) ==> (has_prefix(
                    x,
                    "human:"@,
                ) || active.contains(x));
            a.len() > 0 && b.len() > 0 && (caller == moderator || has_prefix(caller, "human:"@)) && one_role && known
                ==> initiate_error(caller, moderator, a, b, aud, active) is None
        }),
{
    let one_role = forall|x: Seq<char>|
                #![trigger a.contains(x)]
                #![trigger b.contains(x)]
                #![trigger aud.contains(x)]
        {
            &&& (a.contains(x) || b.contains(x) || aud.contains(x)) ==> x != moderator
            &&& !(a.contains(x) && b.contains(x))
            &&& !((a.contains(x) || b.contains(x)) && aud.contains(x))
        };
    let known = forall|x: Seq<char>|
                #![trigger a.contains(x)]
                #![trigger b.contains(x)]
                #![trigger aud.contains(x)]
        (x == moderator || a.contains(x) || b.contains(x) || aud.contains(x)) ==> (has_prefix(x, "human:"@)
            || active.contains(x));
    if a.len() > 0 && b.len() > 0 && (caller == moderator || has_prefix(caller, "human:"@)) && one_role && known {
        assert(!a.contains(moderator) && !b.contains(moderator) && !aud.contains(moderator));
        assert(!role_conflict(moderator, a, b, aud)) by {
            assert forall|i: int| 0 <= i < a.len() implies !(b.contains(#[trigger] a[i]) || aud.contains(a[i])) by {
                assert(a.contains(a[i]));
            }
            assert forall|i: int| 0 <= i < b.len() implies !aud.contains(#[trigger] b[i]) by {
                assert(b.contains(b[i]));
            }
        }
        assert(in_roster(moderator, active));
        assert forall|i: int| 0 <= i < a.len() implies in_roster(#[trigger] a[i], active) by {
            assert(a.contains(a[i]));
        }
        assert forall|i: int| 0 <= i < b.len() implies in_roster(#[trigger] b[i], active) by {
            assert(b.contains(b[i]));
        }
        assert forall|i: int| 0 <= i < aud.len() implies in_roster(#[trigger] aud[i], active) by {
            assert(aud.contains(aud[i]));
        }
    }
}

} // verus!
