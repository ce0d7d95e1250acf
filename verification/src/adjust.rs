//! Balance changes outside the per-message flow: a human's direct
//! adjustment of a seat, and the carry-over of balances from the previous
//! session's snapshot.
use vstd::prelude::*;

use crate::currency::{clamp_i64, empty_seat, make_row, owned_str, row_is, sat_add, seat_lookup, seat_put, seats_distinct, lemma_seat_index, lemma_seat_put, ActionKind, BalancesSnapshot, LedgerRow, SeatBalance, SeatModel, SeatSeq, DEFICIT_CAP_COPPER, STARTING_BALANCE_COPPER};
use crate::text::{
    chars_of, chars_starts_with, dec_int, has_prefix, i64_dec, push_chars, push_str,
    string_from_chars, trim_chars, trim_seq,
};

verus! {

// ---------------------------------------------------------------------------
// Human adjustment
// ---------------------------------------------------------------------------

/// What a human adjustment did.
pub struct HumanAdjustOutcome {
    pub seat: String,
    pub amount_copper: i64,
    pub balance_before: i64,
    pub balance_after: i64,
    pub timed_out: bool,
    pub reason: String,
    pub txn_id: u64,
    /// The `human_adjust` ledger row to append.
    pub row: LedgerRow,
}

/// The refusal of a human adjustment, checked in this order; `None` when it
/// goes through.
pub open spec fn adjust_error(
    caller: Seq<char>,
    seat: Seq<char>,
    amount: i64,
    reason: Seq<char>,
    seats: SeatSeq,
) -> Option<Seq<char>> {
    if !has_prefix(caller, "human:"@) {
        Some("[HumanAdjust] only human:* can adjust balances directly."@)
    } else if trim_seq(seat).len() == 0 {
        Some("[HumanAdjust] seat label is required."@)
    } else if trim_seq(reason).len() == 0 {
        Some(
            "[HumanAdjustReasonRequired] non-empty reason is mandatory (audit requirement per architect msg 469)."@,
        )
    } else if amount == 0 {
        Some("[HumanAdjust] amount_copper must be non-zero (positive = credit, negative = debit)."@)
    } else if seat_lookup(seats, seat) is None {
        Some("[HumanAdjust] seat "@ + seat + " has no balance entry yet (must join first)."@)
    } else {
        None
    }
}

/// The seat after the adjustment: the amount is added (saturating) and a
/// balance at or below the deficit cap times the seat out.
pub open spec fn adjusted(e: SeatModel, amount: i64) -> SeatModel {
    let b = clamp_i64(e.balance + amount);
    SeatModel { balance: b as i64, timed_out: e.timed_out || b <= DEFICIT_CAP_COPPER, ..e }
}

pub open spec fn adjust_reason(caller: Seq<char>, reason: Seq<char>) -> Seq<char> {
    "human_adjust by "@ + caller + ": "@ + reason
}

fn text4(a: &str, b: &str, c: &str, d: &str) -> (r: String)
    ensures
        r@ == a@ + b@ + c@ + d@,
{
    let mut v: Vec<char> = Vec::new();
    push_str(&mut v, a);
    push_str(&mut v, b);
    push_str(&mut v, c);
    push_str(&mut v, d);
    string_from_chars(&v)
}

fn is_blank(s: &str) -> (b: bool)
    ensures
        b == (trim_seq(s@).len() == 0),
{
    let cs = chars_of(s);
    trim_chars(&cs).len() == 0
}

/// A human's direct credit (positive amount) or debit (negative amount) of a
/// seat that already has a balance. Refused, with the snapshot untouched,
/// when the caller is not `human:*`, the seat or the reason is blank, the
/// amount is zero, or the seat has no balance yet. Otherwise the seat's
/// balance moves by the amount (saturating; at or below the deficit cap the
/// seat times out), `next_txn_id` advances, and the outcome carries the
/// `human_adjust` row stamped with the current turn and `now`.
pub fn apply_human_adjust(
    snap: &mut BalancesSnapshot,
    caller: &str,
    seat: &str,
    amount_copper: i64,
    reason: &str,
    now: &str,
) -> (r: Result<HumanAdjustOutcome, String>)
    requires
        adjust_error(caller@, seat@, amount_copper, reason@, old(snap).seats@) is None
            ==> old(snap).next_txn_id < u64::MAX,
    ensures
        r is Err <==> adjust_error(caller@, seat@, amount_copper, reason@, old(snap).seats@) is Some,
        match r {
            Err(m) => {
                &&& adjust_error(caller@, seat@, amount_copper, reason@, old(snap).seats@) == Some(m@)
                &&& final(snap).seats@ == old(snap).seats@
                &&& final(snap).next_txn_id == old(snap).next_txn_id
            },
            Ok(o) => {
                let e = seat_lookup(old(snap).seats@, seat@).unwrap();
                let e2 = adjusted(e, amount_copper);
                &&& final(snap).seats@ == seat_put(old(snap).seats@, seat@, e2)
                &&& final(snap).next_txn_id == old(snap).next_txn_id + 1
                &&& o.seat@ == seat@
                &&& o.amount_copper == amount_copper
                &&& o.balance_before == e.balance
                &&& o.balance_after == e2.balance
                &&& o.timed_out == (e2.balance <= DEFICIT_CAP_COPPER)
                &&& o.reason@ == reason@
                &&& o.txn_id == old(snap).next_txn_id
                &&& row_is(
                    o.row,
                    old(snap).next_txn_id,
                    "human_adjust"@,
                    seat@,
                    amount_copper as int,
                    adjust_reason(caller@, reason@),
                    None,
                    e2.balance as int,
                    None,
                    None,
                    Some(old(snap).turn_counter),
                    Some(ActionKind::HumanAdjust),
                    None,
                    now@,
                )
            },
        },
        final(snap).turn_counter == old(snap).turn_counter,
        final(snap).next_escrow_id == old(snap).next_escrow_id,
        final(snap).next_bounty_id == old(snap).next_bounty_id,
{
    let cc = chars_of(caller);
    let prefix = chars_of("human:");
    if !chars_starts_with(&cc, &prefix) {
        return Err(owned_str("[HumanAdjust] only human:* can adjust balances directly."));
    }
    if is_blank(seat) {
        return Err(owned_str("[HumanAdjust] seat label is required."));
    }
    if is_blank(reason) {
        return Err(
            owned_str(
                "[HumanAdjustReasonRequired] non-empty reason is mandatory (audit requirement per architect msg 469).",
            ),
        );
    }
    if amount_copper == 0 {
        return Err(owned_str("[HumanAdjust] amount_copper must be non-zero (positive = credit, negative = debit)."));
    }
    let i = match snap.seats.position(seat) {
        Some(i) => i,
        None => {
            let mut v: Vec<char> = Vec::new();
            push_str(&mut v, "[HumanAdjust] seat ");
            push_str(&mut v, seat);
            push_str(&mut v, " has no balance entry yet (must join first).");
            return Err(string_from_chars(&v));
        },
    };
    let ghost s0 = snap.seats@;
    proof {
        lemma_seat_index(s0, seat@);
    }
    let (_label, mut e) = snap.seats.take_at(i);
    let pre_bal = e.balance;
    let new_bal = sat_add(pre_bal, amount_copper);
    e.balance = new_bal;
    if e.balance <= DEFICIT_CAP_COPPER {
        e.timed_out = true;
    }
    snap.seats.put_at(i, e);
    proof {
        assert(snap.seats@ =~= seat_put(s0, seat@, adjusted(s0[i as int].1, amount_copper)));
    }
    let id = snap.next_txn_id;
    snap.next_txn_id = snap.next_txn_id + 1;
    let row = make_row(
        id,
        "human_adjust",
        seat,
        amount_copper,
        text4("human_adjust by ", caller, ": ", reason),
        None,
        new_bal,
        None,
        None,
        Some(snap.turn_counter),
        Some(ActionKind::HumanAdjust),
        None,
        now,
    );
    Ok(
        HumanAdjustOutcome {
            seat: owned_str(seat),
            amount_copper,
            balance_before: pre_bal,
            balance_after: new_bal,
            timed_out: new_bal <= DEFICIT_CAP_COPPER,
            reason: owned_str(reason),
            txn_id: id,
            row,
        },
    )
}

// ---------------------------------------------------------------------------
// Carry-over from the previous session
// ---------------------------------------------------------------------------

/// The previous session's final balance of a seat (the starting balance
/// when the snapshot does not record one).
pub open spec fn prev_final_of(o: Option<i64>) -> i64 {
    match o {
        Some(v) => v,
        None => STARTING_BALANCE_COPPER,
    }
}

/// The carried starting balance: capped at the starting balance, nothing
/// for a seat that ended timed out (at or below the deficit cap), nothing
/// for a deficit, else the final balance itself.
pub open spec fn carry_start(prev: i64) -> i64 {
    if prev > STARTING_BALANCE_COPPER {
        STARTING_BALANCE_COPPER
    } else if prev <= DEFICIT_CAP_COPPER {
        0
    } else if prev > 0 {
        prev
    } else {
        0
    }
}

pub open spec fn carry_note(prev: i64) -> Seq<char> {
    if prev > STARTING_BALANCE_COPPER {
        "capped from "@ + dec_int(prev as int)
    } else if prev <= DEFICIT_CAP_COPPER {
        "timed out last session"@
    } else if prev > 0 {
        "carried"@
    } else {
        "deficit not carried"@
    }
}

/// Seats of the previous snapshot folded into the table in order: a seat
/// already present is skipped; any other joins at its carried balance. Also
/// gives the carried seats, in order, with their previous final balance.
pub open spec fn carry_fold(s: SeatSeq, entries: Seq<(Seq<char>, Option<i64>)>) -> (SeatSeq, Seq<(Seq<char>, i64)>)
    decreases entries.len(),
{
    if entries.len() == 0 {
        (s, Seq::empty())
    } else {
        let (s1, c1) = carry_fold(s, entries.drop_last());
        let k = entries.last().0;
        let prev = prev_final_of(entries.last().1);
        if seat_lookup(s1, k) is Some {
            (s1, c1)
        } else {
            (seat_put(s1, k, SeatModel { balance: carry_start(prev), ..empty_seat() }), c1.push((k, prev)))
        }
    }
}

pub open spec fn banner_line(c: (Seq<char>, i64)) -> Seq<char> {
    c.0 + ": "@ + dec_int(carry_start(c.1) as int) + " copper ("@ + carry_note(c.1) + ")"@
}

/// The "Session started" banner: a header line, then one line per carried seat.
pub open spec fn banner_text(c: Seq<(Seq<char>, i64)>) -> Seq<char>
    decreases c.len(),
{
    if c.len() == 0 {
        "Session started. Carry-over:"@
    } else {
        banner_text(c.drop_last()) + "\n"@ + banner_line(c.last())
    }
}

/// `u64::saturating_add`.
pub open spec fn sat_add_u64(a: int, b: int) -> u64 {
    if a + b > u64::MAX {
        u64::MAX
    } else {
        (a + b) as u64
    }
}

pub open spec fn carry_reason(prev_date: Seq<char>) -> Seq<char> {
    "carried over from session "@ + prev_date
}

/// What a carry-over did.
pub struct CarryoverOutcome {
    /// One `init` row per carried seat, then the banner row when any was carried.
    pub rows: Vec<LedgerRow>,
    pub carried: u64,
}

fn carry_start_exec(prev: i64) -> (r: (i64, String))
    ensures
        r.0 == carry_start(prev),
        r.1@ == carry_note(prev),
{
    if prev > STARTING_BALANCE_COPPER {
        let mut v: Vec<char> = Vec::new();
        push_str(&mut v, "capped from ");
        let d = i64_dec(prev);
        push_chars(&mut v, &d);
        (STARTING_BALANCE_COPPER, string_from_chars(&v))
    } else if prev <= DEFICIT_CAP_COPPER {
        (0, owned_str("timed out last session"))
    } else if prev > 0 {
        (prev, owned_str("carried"))
    } else {
        (0, owned_str("deficit not carried"))
    }
}

proof fn lemma_carry_take(s: SeatSeq, e: Seq<(Seq<char>, Option<i64>)>, j: int)
    requires
        0 <= j < e.len(),
    ensures
        carry_fold(s, e.take(j + 1)) == ({
            let (s1, c1) = carry_fold(s, e.take(j));
            let k = e[j].0;
            let prev = prev_final_of(e[j].1);
            if seat_lookup(s1, k) is Some {
                (s1, c1)
            } else {
                (seat_put(s1, k, SeatModel { balance: carry_start(prev), ..empty_seat() }), c1.push((k, prev)))
            }
        }),
{
    assert(e.take(j + 1).drop_last() =~= e.take(j));
    assert(e.take(j + 1).last() == e[j]);
}

/// Seed the seats of the previous session's snapshot (`seats`: each label
/// with its recorded final balance, in the snapshot's order) that have no
/// balance yet: each joins at its carried balance with an `init` row
/// ("carried over from session <prev_date>"), `next_txn_id` advancing
/// (saturating). When any seat was carried, a banner `init` row for
/// `system:session` follows, numbered with the advanced `next_txn_id`
/// (which it does not advance). Returns the rows and the count carried.
pub fn apply_carryover(
    bal: &mut BalancesSnapshot,
    prev_date: &str,
    seats: &Vec<(String, Option<i64>)>,
    now: &str,
) -> (out: CarryoverOutcome)
    ensures
        ({
            let entries = seats@.map_values(|p: (String, Option<i64>)| (p.0@, p.1));
            let (s2, c) = carry_fold(old(bal).seats@, entries);
            let start = old(bal).next_txn_id as int;
            &&& final(bal).seats@ == s2
            &&& out.carried == c.len()
            &&& final(bal).next_txn_id == sat_add_u64(start, c.len() as int)
            &&& out.rows@.len() == if c.len() > 0 { c.len() + 1 } else { 0 }
            &&& forall|j: int| 0 <= j < c.len() ==> row_is(
                #[trigger] out.rows@[j],
                sat_add_u64(start, j),
                "init"@,
                c[j].0,
                carry_start(c[j].1) as int,
                carry_reason(prev_date@),
                None,
                carry_start(c[j].1) as int,
                None,
                None,
                Some(old(bal).turn_counter),
                Some(ActionKind::Init),
                None,
                now@,
            )
            &&& c.len() > 0 ==> row_is(
                out.rows@[c.len() as int],
                sat_add_u64(start, c.len() as int),
                "init"@,
                "system:session"@,
                0,
                banner_text(c),
                None,
                0,
                None,
                None,
                Some(old(bal).turn_counter),
                Some(ActionKind::Init),
                None,
                now@,
            )
            &&& final(bal).turn_counter == old(bal).turn_counter
            &&& final(bal).next_escrow_id == old(bal).next_escrow_id
            &&& final(bal).next_bounty_id == old(bal).next_bounty_id
        }),
{
    let ghost entries = seats@.map_values(|p: (String, Option<i64>)| (p.0@, p.1));
    let ghost s0 = bal.seats@;
    let ghost start = bal.next_txn_id as int;
    let mut rows: Vec<LedgerRow> = Vec::new();
    let mut carried: u64 = 0;
    let mut banner: Vec<char> = Vec::new();
    push_str(&mut banner, "Session started. Carry-over:");
    let mut reason_v: Vec<char> = Vec::new();
    push_str(&mut reason_v, "carried over from session ");
    push_str(&mut reason_v, prev_date);
    let mut j: usize = 0;
    assert(entries.take(0) =~= Seq::<(Seq<char>, Option<i64>)>::empty());
    while j < seats.len()
        invariant
            j <= seats.len(),
            entries == seats@.map_values(|p: (String, Option<i64>)| (p.0@, p.1)),
            reason_v@ == carry_reason(prev_date@),
            start == old(bal).next_txn_id as int,
            ({
                let (s1, c1) = carry_fold(s0, entries.take(j as int));
                &&& bal.seats@ == s1
                &&& carried == c1.len()
                &&& c1.len() <= j
                &&& bal.next_txn_id == sat_add_u64(start, c1.len() as int)
                &&& rows@.len() == c1.len()
                &&& banner@ == banner_text(c1)
                &&& forall|q: int| 0 <= q < c1.len() ==> row_is(
                    #[trigger] rows@[q],
                    sat_add_u64(start, q),
                    "init"@,
                    c1[q].0,
                    carry_start(c1[q].1) as int,
                    carry_reason(prev_date@),
                    None,
                    carry_start(c1[q].1) as int,
                    None,
                    None,
                    Some(old(bal).turn_counter),
                    Some(ActionKind::Init),
                    None,
                    now@,
                )
            }),
            bal.turn_counter == old(bal).turn_counter,
            bal.next_escrow_id == old(bal).next_escrow_id,
            bal.next_bounty_id == old(bal).next_bounty_id,
        decreases seats.len() - j,
    {
        proof {
            lemma_carry_take(s0, entries, j as int);
        }
        let ghost before_rows = rows@;
        let ghost (s1, c1) = carry_fold(s0, entries.take(j as int));
        let label = &seats[j].0;
        if !bal.seats.contains_key(label.as_str()) {
            let prev = match seats[j].1 {
                Some(v) => v,
                None => STARTING_BALANCE_COPPER,
            };
            let (start_bal, note) = carry_start_exec(prev);
            let mut e = SeatBalance::empty();
            e.balance = start_bal;
            bal.seats.insert(label.clone(), e);
            let id = bal.next_txn_id;
            bal.next_txn_id = if bal.next_txn_id == u64::MAX {
                u64::MAX
            } else {
                bal.next_txn_id + 1
            };
            let row = make_row(
                id,
                "init",
                label.as_str(),
                start_bal,
                string_from_chars(&reason_v),
                None,
                start_bal,
                None,
                None,
                Some(bal.turn_counter),
                Some(ActionKind::Init),
                None,
                now,
            );
            rows.push(row);
            push_str(&mut banner, "\n");
            push_str(&mut banner, label.as_str());
            push_str(&mut banner, ": ");
            let d = i64_dec(start_bal);
            push_chars(&mut banner, &d);
            push_str(&mut banner, " copper (");
            push_str(&mut banner, note.as_str());
            push_str(&mut banner, ")");
            carried = carried + 1;
            proof {
                let c2 = c1.push((label@, prev));
                assert(banner@ =~= banner_text(c2)) by {
                    assert(c2.drop_last() =~= c1);
                }
                assert forall|q: int| 0 <= q < c2.len() implies row_is(
                    #[trigger] rows@[q],
                    sat_add_u64(start, q),
                    "init"@,
                    c2[q].0,
                    carry_start(c2[q].1) as int,
                    carry_reason(prev_date@),
                    None,
                    carry_start(c2[q].1) as int,
                    None,
                    None,
                    Some(old(bal).turn_counter),
                    Some(ActionKind::Init),
                    None,
                    now@,
                ) by {
                    if q < c1.len() {
                        assert(rows@[q] == before_rows[q]);
                        assert(c2[q] == c1[q]);
                    }
                }
            }
        }
        j = j + 1;
    }
    assert(entries.take(seats.len() as int) =~= entries);
    if carried > 0 {
        let id = bal.next_txn_id;
        let row = make_row(
            id,
            "init",
            "system:session",
            0,
            string_from_chars(&banner),
            None,
            0,
            None,
            None,
            Some(bal.turn_counter),
            Some(ActionKind::Init),
            None,
            now,
        );
        rows.push(row);
    }
    CarryoverOutcome { rows, carried }
}

proof fn lemma_carry_fold_present(s: SeatSeq, e: Seq<(Seq<char>, Option<i64>)>)
    requires
        seats_distinct(s),
    ensures
        seats_distinct(carry_fold(s, e).0),
        forall|j: int| 0 <= j < e.len() ==> (#[trigger] seat_lookup(carry_fold(s, e).0, e[j].0)) is Some,
        forall|k: Seq<char>| seat_lookup(s, k) is Some ==> (#[trigger] seat_lookup(carry_fold(s, e).0, k)) is Some,
    decreases e.len(),
{
    if e.len() > 0 {
        lemma_carry_fold_present(s, e.drop_last());
        let (s1, c1) = carry_fold(s, e.drop_last());
        let k = e.last().0;
        let v = SeatModel { balance: carry_start(prev_final_of(e.last().1)), ..empty_seat() };
        lemma_seat_put(s1, k, v);
        let s2 = carry_fold(s, e).0;
        assert forall|k2: Seq<char>| seat_lookup(s, k2) is Some implies (#[trigger] seat_lookup(s2, k2)) is Some by {
            assert(seat_lookup(s1, k2) is Some);
        }
        assert forall|j: int| 0 <= j < e.len() implies (#[trigger] seat_lookup(s2, e[j].0)) is Some by {
            if j < e.len() - 1 {
                assert(e[j] == e.drop_last()[j]);
                assert(seat_lookup(s1, e[j].0) is Some);
            }
        }
    }
}

proof fn lemma_carry_fold_noop(t: SeatSeq, e: Seq<(Seq<char>, Option<i64>)>)
    requires
        forall|j: int| 0 <= j < e.len() ==> (#[trigger] seat_lookup(t, e[j].0)) is Some,
    ensures
        carry_fold(t, e) == (t, Seq::<(Seq<char>, i64)>::empty()),
    decreases e.len(),
{
    if e.len() > 0 {
        assert forall|j: int| 0 <= j < e.drop_last().len() implies (#[trigger] seat_lookup(t, e.drop_last()[j].0)) is Some by {
            assert(e.drop_last()[j] == e[j]);
        }
        lemma_carry_fold_noop(t, e.drop_last());
        assert(seat_lookup(t, e[e.len() - 1].0) is Some);
    }
}

/// Carry-over is idempotent: once a snapshot's seats are carried, carrying
/// the same snapshot again seeds nothing and leaves the table as it is.
pub proof fn law_carryover_idempotent(s: SeatSeq, entries: Seq<(Seq<char>, Option<i64>)>)
    requires
        seats_distinct(s),
    ensures
        carry_fold(carry_fold(s, entries).0, entries) == (carry_fold(s, entries).0, Seq::<(Seq<char>, i64)>::empty()),
{
    lemma_carry_fold_present(s, entries);
    lemma_carry_fold_noop(carry_fold(s, entries).0, entries);
}

/// A carried balance is never above the starting balance nor below zero.
pub proof fn law_carry_start_bounded(prev: i64)
    ensures
        0 <= carry_start(prev) <= STARTING_BALANCE_COPPER,
{
}


/// A human adjustment moves the balance by exactly the amount, saturating at
/// the ends of `i64`: a credit never lowers the balance and a debit never
/// raises it; the seat times out when the new balance is at or below the
/// deficit cap, and stays timed out once it was. Adjusting by an amount and
/// then by its opposite gives the balance back when neither step saturates.
pub proof fn law_adjust_moves_by_amount(e: SeatModel, amount: i64)
    ensures
        ({
            let sum = e.balance + amount;
            adjusted(e, amount).balance == (if sum > i64::MAX {
                i64::MAX as int
            } else if sum < i64::MIN {
                i64::MIN as int
            } else {
                sum
            })
        }),
        amount > 0 ==> adjusted(e, amount).balance >= e.balance,
        amount < 0 ==> adjusted(e, amount).balance <= e.balance,
        adjusted(e, amount).timed_out == (e.timed_out || adjusted(e, amount).balance <= DEFICIT_CAP_COPPER),
        adjusted(e, amount).escrow_held == e.escrow_held,
        adjusted(e, amount).items == e.items,
        amount != i64::MIN && i64::MIN <= e.balance + amount <= i64::MAX ==> adjusted(adjusted(e, amount), (-amount) as i64).balance
            == e.balance,
{
}

} // verus!
