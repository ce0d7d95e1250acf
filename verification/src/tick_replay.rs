//! A tick's rows replay to the tick's seats: applying the ledger rows that
//! `process_tick` returns, one by one as `apply_row` applies them, to the
//! seats before the tick gives the seats after it. The balances snapshot
//! and a fresh replay of the ledger therefore agree across a tick.
use vstd::prelude::*;

use crate::currency::{
    clamp_i64, credit, drop_escrow, empty_seat, lemma_seat_index, lemma_seat_index_unique, lemma_seat_put,
    lemma_seat_put_twice, row_effect, seat_index, seat_lookup, seat_or_empty, seat_or_start, seat_put,
    seats_distinct, EconomySettings, EscrowItem, LedgerRow, SeatModel, SeatSeq, DEFICIT_CAP_COPPER,
};
use crate::tick::{
    after_interest, decay_first, decay_pair, decay_rows, decay_second, decay_seat, interest_rows,
    mature_items, passive_step, pending_items, phase1_rows, phase1_seats, phase2_rows, phase2_seats,
    phase3, release_all, release_one, release_rows, rows_match, seat_interest, seat_tick_rows, tick_result,
    tick_row_is, tick_seat, TickRow,
};

verus! {

// ---------------------------------------------------------------------------
// Replay from given seats
// ---------------------------------------------------------------------------

/// The seats after applying `rows` in order to the seats `s`, each row as
/// `apply_row` applies it; the first refused row stops with its error.
pub open spec fn replay_from(s: SeatSeq, rows: Seq<LedgerRow>) -> Result<SeatSeq, Seq<char>>
    decreases rows.len(),
{
    if rows.len() == 0 {
        Ok(s)
    } else {
        match replay_from(s, rows.drop_last()) {
            Ok(t) => {
                let row = rows.last();
                match row_effect(seat_or_empty(t, row.seat@), row) {
                    Ok(e1) => Ok(seat_put(t, row.seat@, e1)),
                    Err(m) => Err(m),
                }
            },
            Err(m) => Err(m),
        }
    }
}

/// What a tick row does to a seat, as `row_effect` does it to the ledger row
/// written for it (`None` where that row would be refused).
pub open spec fn tick_row_effect(e: SeatModel, t: TickRow) -> Option<SeatModel> {
    let arm = if t.txn == "init"@ {
        if e.balance != 0 || e.items.len() > 0 || e.escrow_held != 0 {
            None
        } else {
            Some(SeatModel { balance: t.amount as i64, ..e })
        }
    } else if t.txn == "interest"@ || t.txn == "credit"@ || t.txn == "passive"@ || t.txn == "decay"@ {
        Some(SeatModel { balance: clamp_i64(e.balance + t.amount) as i64, ..e })
    } else if t.txn == "escrow_release"@ {
        let left = e.escrow_held - t.amount;
        Some(
            SeatModel {
                escrow_held: (if left > 0 { left } else { 0 }) as i64,
                items: match t.escrow_id {
                    Some(id) => drop_escrow(e.items, id),
                    None => e.items,
                },
                ..e
            },
        )
    } else {
        None
    };
    match arm {
        Some(e1) => Some(
            if e1.balance <= DEFICIT_CAP_COPPER && t.txn != "decay"@ {
                SeatModel { timed_out: true, ..e1 }
            } else {
                e1
            },
        ),
        None => None,
    }
}

/// Tick rows applied in order to the seats `s`.
pub open spec fn treplay(s: SeatSeq, rows: Seq<TickRow>) -> Option<SeatSeq>
    decreases rows.len(),
{
    if rows.len() == 0 {
        Some(s)
    } else {
        match treplay(s, rows.drop_last()) {
            Some(u) => {
                let t = rows.last();
                match tick_row_effect(seat_or_empty(u, t.seat), t) {
                    Some(e1) => Some(seat_put(u, t.seat, e1)),
                    None => None,
                }
            },
            None => None,
        }
    }
}

/// Tick rows of one seat applied in order to that seat.
pub open spec fn seat_fold(e: SeatModel, rows: Seq<TickRow>) -> Option<SeatModel>
    decreases rows.len(),
{
    if rows.len() == 0 {
        Some(e)
    } else {
        match seat_fold(e, rows.drop_last()) {
            Some(u) => tick_row_effect(u, rows.last()),
            None => None,
        }
    }
}

/// The ledger row written for a tick row does to a seat what the tick row
/// does.
proof fn lemma_row_effect_of_tick_row(e: SeatModel, r: LedgerRow, id: int, t: TickRow, turn: u64, now: Seq<char>)
    requires
        tick_row_is(r, id, t, turn, now),
        tick_row_effect(e, t) is Some,
    ensures
        row_effect(e, r) == Ok::<SeatModel, Seq<char>>(tick_row_effect(e, t).unwrap()),
        r.seat@ == t.seat,
{
    reveal_strlit("init");
    reveal_strlit("interest");
    reveal_strlit("credit");
    reveal_strlit("passive");
    reveal_strlit("decay");
    reveal_strlit("penalty");
    reveal_strlit("human_adjust");
    reveal_strlit("bounty_stake");
    reveal_strlit("bounty_earn");
    reveal_strlit("bounty_clawback");
    reveal_strlit("escrow_hold");
    reveal_strlit("escrow_release");
    let x = r.txn_type@;
    assert(x == t.txn);
    if x == "escrow_release"@ {
        assert(x != "init"@);
        assert(x != "credit"@);
        assert(x != "passive"@);
        assert(x != "interest"@);
        assert(x != "penalty"@);
        assert(x != "decay"@);
        assert(x != "human_adjust"@);
        assert(x != "bounty_stake"@);
        assert(x != "bounty_earn"@);
        assert(x != "bounty_clawback"@);
        assert(x != "escrow_hold"@);
        match r.escrow_id {
            Some(id) => {
                assert(t.escrow_id == Some(id@));
            },
            None => {},
        }
    } else if x == "init"@ {
    } else {
        assert(x != "init"@);
    }
}

/// Replaying the ledger rows written for tick rows is replaying the tick rows.
pub proof fn lemma_replay_of_tick_rows(s: SeatSeq, rows: Seq<LedgerRow>, start: int, trows: Seq<TickRow>, turn: u64, now: Seq<char>)
    requires
        rows_match(rows, start, trows, turn, now),
        treplay(s, trows) is Some,
    ensures
        replay_from(s, rows) == Ok::<SeatSeq, Seq<char>>(treplay(s, trows).unwrap()),
    decreases rows.len(),
{
    if rows.len() > 0 {
        let n = rows.len() - 1;
        assert(rows_match(rows.drop_last(), start, trows.drop_last(), turn, now)) by {
            assert forall|j: int| 0 <= j < rows.drop_last().len() implies tick_row_is(
                #[trigger] rows.drop_last()[j],
                start + j,
                trows.drop_last()[j],
                turn,
                now,
            ) by {
                assert(tick_row_is(rows[j], start + j, trows[j], turn, now));
            }
        }
        lemma_replay_of_tick_rows(s, rows.drop_last(), start, trows.drop_last(), turn, now);
        let u = treplay(s, trows.drop_last()).unwrap();
        assert(tick_row_is(rows[n], start + n, trows[n], turn, now));
        lemma_row_effect_of_tick_row(seat_or_empty(u, trows.last().seat), rows.last(), start + n, trows.last(), turn, now);
    }
}

proof fn lemma_treplay_append(s: SeatSeq, a: Seq<TickRow>, b: Seq<TickRow>)
    ensures
        treplay(s, a + b) == match treplay(s, a) {
            Some(u) => treplay(u, b),
            None => None,
        },
    decreases b.len(),
{
    if b.len() == 0 {
        assert(a + b =~= a);
    } else {
        lemma_treplay_append(s, a, b.drop_last());
        assert((a + b).drop_last() =~= a + b.drop_last());
        assert((a + b).last() == b.last());
    }
}

proof fn lemma_seat_fold_append(e: SeatModel, a: Seq<TickRow>, b: Seq<TickRow>)
    ensures
        seat_fold(e, a + b) == match seat_fold(e, a) {
            Some(u) => seat_fold(u, b),
            None => None,
        },
    decreases b.len(),
{
    if b.len() == 0 {
        assert(a + b =~= a);
    } else {
        lemma_seat_fold_append(e, a, b.drop_last());
        assert((a + b).drop_last() =~= a + b.drop_last());
        assert((a + b).last() == b.last());
    }
}

/// Every row is of seat `k`.
pub open spec fn all_of_seat(rows: Seq<TickRow>, k: Seq<char>) -> bool {
    forall|i: int| 0 <= i < rows.len() ==> (#[trigger] rows[i]).seat == k
}

proof fn lemma_seat_put_same(u: SeatSeq, k: Seq<char>, e: SeatModel)
    requires
        seats_distinct(u),
        seat_lookup(u, k) == Some(e),
    ensures
        seat_put(u, k, e) == u,
{
    lemma_seat_index(u, k);
    assert(u.update(seat_index(u, k), (k, e)) =~= u);
}

/// Rows of one present seat replay as that seat's fold.
proof fn lemma_treplay_one_seat(u: SeatSeq, k: Seq<char>, e: SeatModel, rows: Seq<TickRow>)
    requires
        seats_distinct(u),
        seat_lookup(u, k) == Some(e),
        all_of_seat(rows, k),
    ensures
        treplay(u, rows) == match seat_fold(e, rows) {
            Some(e2) => Some(seat_put(u, k, e2)),
            None => None,
        },
    decreases rows.len(),
{
    if rows.len() == 0 {
        lemma_seat_put_same(u, k, e);
    } else {
        let p = rows.drop_last();
        assert(all_of_seat(p, k)) by {
            assert forall|i: int| 0 <= i < p.len() implies (#[trigger] p[i]).seat == k by {
                assert(p[i] == rows[i]);
            }
        }
        lemma_treplay_one_seat(u, k, e, p);
        assert(rows.last() == rows[rows.len() - 1]);
        match seat_fold(e, p) {
            Some(e2) => {
                lemma_seat_put(u, k, e2);
                let v = seat_put(u, k, e2);
                match tick_row_effect(e2, rows.last()) {
                    Some(e3) => {
                        lemma_seat_put_twice(u, k, e2, e3);
                    },
                    None => {},
                }
            },
            None => {},
        }
    }
}


// ---------------------------------------------------------------------------
// One seat
// ---------------------------------------------------------------------------

/// At or below the deficit cap only when timed out.
pub open spec fn deficit_flagged(e: SeatModel) -> bool {
    e.balance <= DEFICIT_CAP_COPPER ==> e.timed_out
}

/// A seat as a tick finds it: flagged when at or below the deficit cap, its
/// escrow amounts not negative, its escrow ids distinct.
pub open spec fn seat_tick_ready(e: SeatModel) -> bool {
    &&& deficit_flagged(e)
    &&& forall|i: int| 0 <= i < e.items.len() ==> (#[trigger] e.items[i]).amount >= 0
    &&& forall|i: int, j: int| 0 <= i < j < e.items.len() ==> e.items[i].id@ != e.items[j].id@
}

/// `x` without the escrow items of the ids of `m`, dropped in order.
pub open spec fn drop_ids(x: Seq<EscrowItem>, m: Seq<EscrowItem>) -> Seq<EscrowItem>
    decreases m.len(),
{
    if m.len() == 0 {
        x
    } else {
        drop_escrow(drop_ids(x, m.drop_last()), m.last().id@)
    }
}

proof fn lemma_split_items(x: Seq<EscrowItem>, turn: u64)
    ensures
        forall|i: int| 0 <= i < mature_items(x, turn).len() ==> x.contains(#[trigger] mature_items(x, turn)[i]),
        forall|i: int| 0 <= i < pending_items(x, turn).len() ==> x.contains(#[trigger] pending_items(x, turn)[i]),
    decreases x.len(),
{
    if x.len() > 0 {
        let p = x.drop_last();
        lemma_split_items(p, turn);
        assert forall|i: int| 0 <= i < mature_items(x, turn).len() implies x.contains(#[trigger] mature_items(x, turn)[i]) by {
            if i < mature_items(p, turn).len() {
                assert(mature_items(x, turn)[i] == mature_items(p, turn)[i]);
                let j = choose|j: int| 0 <= j < p.len() && p[j] == mature_items(p, turn)[i];
                assert(x[j] == p[j]);
            } else {
                assert(x[x.len() - 1] == x.last());
            }
        }
        assert forall|i: int| 0 <= i < pending_items(x, turn).len() implies x.contains(#[trigger] pending_items(x, turn)[i]) by {
            if i < pending_items(p, turn).len() {
                assert(pending_items(x, turn)[i] == pending_items(p, turn)[i]);
                let j = choose|j: int| 0 <= j < p.len() && p[j] == pending_items(p, turn)[i];
                assert(x[j] == p[j]);
            } else {
                assert(x[x.len() - 1] == x.last());
            }
        }
    }
}

proof fn lemma_drop_absent(y: Seq<EscrowItem>, id: Seq<char>)
    requires
        forall|i: int| 0 <= i < y.len() ==> (#[trigger] y[i]).id@ != id,
    ensures
        drop_escrow(y, id) == y,
    decreases y.len(),
{
    if y.len() > 0 {
        let p = y.drop_last();
        assert forall|i: int| 0 <= i < p.len() implies (#[trigger] p[i]).id@ != id by {
            assert(p[i] == y[i]);
        }
        lemma_drop_absent(p, id);
        assert(y.last() == y[y.len() - 1]);
        assert(p.push(y.last()) =~= y);
    }
}

proof fn lemma_drop_ids_push(y: Seq<EscrowItem>, a: EscrowItem, m: Seq<EscrowItem>)
    requires
        forall|j: int| 0 <= j < m.len() ==> (#[trigger] m[j]).id@ != a.id@,
    ensures
        drop_ids(y.push(a), m) == drop_ids(y, m).push(a),
    decreases m.len(),
{
    if m.len() > 0 {
        let p = m.drop_last();
        assert forall|j: int| 0 <= j < p.len() implies (#[trigger] p[j]).id@ != a.id@ by {
            assert(p[j] == m[j]);
        }
        lemma_drop_ids_push(y, a, p);
        let z = drop_ids(y, p);
        assert(m.last() == m[m.len() - 1]);
        assert(z.push(a).drop_last() =~= z);
    }
}

/// Dropping the matured ids of distinct items leaves the pending ones.
proof fn lemma_drop_mature(x: Seq<EscrowItem>, turn: u64)
    requires
        forall|i: int, j: int| 0 <= i < j < x.len() ==> x[i].id@ != x[j].id@,
    ensures
        drop_ids(x, mature_items(x, turn)) == pending_items(x, turn),
    decreases x.len(),
{
    if x.len() > 0 {
        let p = x.drop_last();
        let a = x.last();
        assert(x =~= p.push(a));
        assert forall|i: int, j: int| 0 <= i < j < p.len() implies p[i].id@ != p[j].id@ by {
            assert(p[i] == x[i]);
            assert(p[j] == x[j]);
        }
        lemma_drop_mature(p, turn);
        lemma_split_items(p, turn);
        let mp = mature_items(p, turn);
        let pp = pending_items(p, turn);
        assert forall|j: int| 0 <= j < mp.len() implies (#[trigger] mp[j]).id@ != a.id@ by {
            assert(p.contains(mp[j]));
            let q = choose|q: int| 0 <= q < p.len() && p[q] == mp[j];
            assert(x[q] == p[q]);
            assert(x[x.len() - 1] == a);
        }
        lemma_drop_ids_push(p, a, mp);
        if a.release_turn <= turn {
            assert(mature_items(x, turn) == mp.push(a));
            assert(pending_items(x, turn) == pp);
            assert(mp.push(a).drop_last() =~= mp);
            assert(drop_ids(x, mp.push(a)) == drop_escrow(drop_ids(x, mp), a.id@));
            assert(pp.push(a).drop_last() =~= pp);
            assert forall|i: int| 0 <= i < pp.len() implies (#[trigger] pp[i]).id@ != a.id@ by {
                assert(p.contains(pp[i]));
                let q = choose|q: int| 0 <= q < p.len() && p[q] == pp[i];
                assert(x[q] == p[q]);
                assert(x[x.len() - 1] == a);
            }
            lemma_drop_absent(pp, a.id@);
        } else {
            assert(mature_items(x, turn) == mp);
            assert(pending_items(x, turn) == pp.push(a));
        }
    }
}

proof fn lemma_literals()
    ensures
        "interest"@ != "init"@,
        "interest"@ != "decay"@,
        "credit"@ != "init"@,
        "credit"@ != "decay"@,
        "passive"@ != "init"@,
        "passive"@ != "decay"@,
        "decay"@ != "init"@,
        "escrow_release"@ != "init"@,
        "escrow_release"@ != "interest"@,
        "escrow_release"@ != "credit"@,
        "escrow_release"@ != "passive"@,
        "escrow_release"@ != "decay"@,
        "init"@ != "decay"@,
{
    reveal_strlit("init");
    reveal_strlit("interest");
    reveal_strlit("credit");
    reveal_strlit("passive");
    reveal_strlit("decay");
    reveal_strlit("escrow_release");
    assert("init"@.len() == 4);
    assert("decay"@.len() == 5);
    assert("credit"@.len() == 6);
    assert("passive"@.len() == 7);
    assert("interest"@.len() == 8);
    assert("escrow_release"@.len() == 14);
}

proof fn lemma_fold_one(e: SeatModel, t: TickRow)
    ensures
        seat_fold(e, seq![t]) == tick_row_effect(e, t),
{
    assert(seq![t].drop_last() =~= Seq::<TickRow>::empty());
    assert(seat_fold(e, Seq::<TickRow>::empty()) == Some(e));
}

proof fn lemma_fold_two(e: SeatModel, t1: TickRow, t2: TickRow)
    ensures
        seat_fold(e, seq![t1, t2]) == match tick_row_effect(e, t1) {
            Some(u) => tick_row_effect(u, t2),
            None => None,
        },
{
    lemma_fold_one(e, t1);
    assert(seq![t1, t2].drop_last() =~= seq![t1]);
}

/// The interest row of a flagged seat credits its interest and flags nothing new.
proof fn lemma_fold_interest(k: Seq<char>, e: SeatModel, cfg: EconomySettings, turn: u64)
    requires
        deficit_flagged(e),
    ensures
        seat_fold(e, interest_rows(k, e, cfg, turn)) == Some(after_interest(e, cfg)),
        all_of_seat(interest_rows(k, e, cfg, turn), k),
        after_interest(e, cfg).balance >= e.balance,
        after_interest(e, cfg).timed_out == e.timed_out,
        after_interest(e, cfg).items == e.items,
{
    lemma_literals();
    let r = interest_rows(k, e, cfg, turn);
    let i = seat_interest(e, cfg);
    if i > 0 {
        assert(r.drop_last() =~= Seq::<TickRow>::empty());
        assert(r.last() == r[0]);
        assert(seat_fold(e, r.drop_last()) == Some(e));
        let t = r[0];
        assert(t.txn == "interest"@);
        assert(t.amount == i);
        let e1 = SeatModel { balance: clamp_i64(e.balance + t.amount) as i64, ..e };
        assert(e1 == credit(e, i));
        assert(e1.balance >= e.balance);
        assert(tick_row_effect(e, t) == Some(e1));
    }
}

/// The credit and release rows of the matured items settle them in order.
proof fn lemma_fold_release(k: Seq<char>, ai: SeatModel, m: Seq<EscrowItem>, turn: u64, e0: SeatModel)
    requires
        forall|j: int| 0 <= j < m.len() ==> (#[trigger] m[j]).amount >= 0,
        deficit_flagged(e0),
        ai.balance >= e0.balance,
        ai.timed_out == e0.timed_out,
    ensures
        seat_fold(ai, release_rows(k, ai, m, turn)) == Some(SeatModel { items: drop_ids(ai.items, m), ..release_all(ai, m) }),
        all_of_seat(release_rows(k, ai, m, turn), k),
        release_all(ai, m).balance >= ai.balance,
        release_all(ai, m).timed_out == ai.timed_out,
        release_all(ai, m).items == ai.items,
    decreases m.len(),
{
    lemma_literals();
    if m.len() > 0 {
        let p = m.drop_last();
        let it = m.last();
        assert(it == m[m.len() - 1]);
        assert forall|j: int| 0 <= j < p.len() implies (#[trigger] p[j]).amount >= 0 by {
            assert(p[j] == m[j]);
        }
        lemma_fold_release(k, ai, p, turn, e0);
        let rp = release_rows(k, ai, p, turn);
        let b = release_all(ai, m).balance as int;
        let c1 = TickRow {
            txn: "credit"@,
            seat: k,
            amount: it.amount as int,
            reason: crate::tick::credit_reason(it.action@, turn),
            ref_msg: it.ref_msg,
            balance_after: b,
            escrow_id: Some(it.id@),
            kind: None,
        };
        let c2 = TickRow {
            txn: "escrow_release"@,
            seat: k,
            amount: it.amount as int,
            reason: crate::tick::matured_reason(it.action@, turn),
            ref_msg: it.ref_msg,
            balance_after: b,
            escrow_id: Some(it.id@),
            kind: None,
        };
        assert(release_rows(k, ai, m, turn) == rp + seq![c1, c2]);
        lemma_seat_fold_append(ai, rp, seq![c1, c2]);
        let rr = release_all(ai, p);
        let x = SeatModel { items: drop_ids(ai.items, p), ..rr };
        assert(seat_fold(ai, rp) == Some(x));
        let x1 = SeatModel { balance: clamp_i64(x.balance + it.amount) as i64, ..x };
        assert(x1.balance >= x.balance);
        assert(tick_row_effect(x, c1) == Some(x1));
        let left = x1.escrow_held - it.amount;
        let x2 = SeatModel {
            escrow_held: (if left > 0 { left } else { 0 }) as i64,
            items: drop_escrow(x1.items, it.id@),
            ..x1
        };
        assert(tick_row_effect(x1, c2) == Some(x2));
        assert(release_all(ai, m) == release_one(rr, it));
        assert(x2 == SeatModel { items: drop_escrow(drop_ids(ai.items, p), it.id@), ..release_one(rr, it) });
        lemma_fold_two(x, c1, c2);
        assert(seq![c1, c2].drop_last() =~= seq![c1]);
        assert(seq![c1].drop_last() =~= Seq::<TickRow>::empty());
        assert(m.drop_last() == p);
        assert(drop_ids(ai.items, m) == drop_escrow(drop_ids(ai.items, p), it.id@));
        let all = rp + seq![c1, c2];
        assert forall|i: int| 0 <= i < all.len() implies (#[trigger] all[i]).seat == k by {
            if i < rp.len() {
                assert(all[i] == rp[i]);
            }
        }
    }
}

/// The rows of the first part of a tick take a ready seat to its ticked state.
proof fn lemma_fold_tick_seat(k: Seq<char>, e: SeatModel, cfg: EconomySettings, turn: u64)
    requires
        seat_tick_ready(e),
    ensures
        seat_fold(e, seat_tick_rows(k, e, cfg, turn)) == Some(tick_seat(e, cfg, turn)),
        all_of_seat(seat_tick_rows(k, e, cfg, turn), k),
        deficit_flagged(tick_seat(e, cfg, turn)),
{
    lemma_fold_interest(k, e, cfg, turn);
    let ai = after_interest(e, cfg);
    let m = mature_items(e.items, turn);
    lemma_split_items(e.items, turn);
    assert forall|j: int| 0 <= j < m.len() implies (#[trigger] m[j]).amount >= 0 by {
        assert(e.items.contains(m[j]));
        let q = choose|q: int| 0 <= q < e.items.len() && e.items[q] == m[j];
        assert(e.items[q].amount >= 0);
    }
    lemma_fold_release(k, ai, m, turn, e);
    lemma_drop_mature(e.items, turn);
    let a = interest_rows(k, e, cfg, turn);
    let b = release_rows(k, ai, m, turn);
    lemma_seat_fold_append(e, a, b);
    assert forall|i: int| 0 <= i < (a + b).len() implies (#[trigger] (a + b)[i]).seat == k by {
        if i < a.len() {
            assert((a + b)[i] == a[i]);
        } else {
            assert((a + b)[i] == b[i - a.len()]);
        }
    }
}

/// The decay rows take a seat to its decayed state.
proof fn lemma_fold_decay(k: Seq<char>, e: SeatModel, cfg: EconomySettings, turn: u64)
    ensures
        seat_fold(e, decay_rows(k, e, cfg, turn)) == Some(decay_seat(e, cfg)),
        all_of_seat(decay_rows(k, e, cfg, turn), k),
{
    lemma_literals();
    let r = decay_rows(k, e, cfg, turn);
    let (c, s) = decay_pair(e, cfg);
    let b1 = decay_first(e, cfg);
    let e1 = SeatModel { balance: b1 as i64, ..e };
    let e2 = SeatModel { balance: decay_second(e, cfg) as i64, ..e };
    assert(e2 == decay_seat(e, cfg));
    if c > 0 {
        assert(r[0].txn == "decay"@ && r[0].amount == -c);
        assert(tick_row_effect(e, r[0]) == Some(e1));
    }
    if c > 0 && s > 0 {
        assert(r =~= seq![r[0], r[1]]);
        lemma_fold_two(e, r[0], r[1]);
        assert(r[1].txn == "decay"@ && r[1].amount == -s);
        assert(r.last() == r[1]);
        assert(tick_row_effect(e1, r[1]) == Some(e2));
    } else if c > 0 {
        assert(r =~= seq![r[0]]);
        lemma_fold_one(e, r[0]);
        assert(e1 == e2);
    } else if s > 0 {
        assert(r =~= seq![r[0]]);
        lemma_fold_one(e, r[0]);
        assert(b1 == e.balance);
        assert(r[0].txn == "decay"@ && r[0].amount == -s);
        assert(tick_row_effect(e, r[0]) == Some(e2));
    } else {
        assert(r =~= Seq::<TickRow>::empty());
        assert(e2 == e);
    }
}

/// Decay never takes a balance from above the floor to below it.
proof fn lemma_decay_flagged(e: SeatModel, cfg: EconomySettings)
    requires
        deficit_flagged(e),
        cfg.decay_floor_copper > DEFICIT_CAP_COPPER,
    ensures
        deficit_flagged(decay_seat(e, cfg)),
        decay_seat(e, cfg).timed_out == e.timed_out,
{
    let bal = e.balance as int;
    let floor = cfg.decay_floor_copper as int;
    let cp = cfg.decay_copper_pct_per_turn_tenths as int;
    let sp = cfg.decay_silver_pct_per_turn_tenths as int;
    if bal >= floor {
        let cb = crate::currency::copper_bucket(bal) * cp;
        let sb = crate::currency::silver_bucket(bal) * sp;
        assert(crate::currency::ceil_div_spec(cb, 1000) >= 0);
        assert(crate::currency::ceil_div_spec(sb, 1000) >= 0);
    }
}


// ---------------------------------------------------------------------------
// The phases of a tick
// ---------------------------------------------------------------------------

/// Every seat is flagged when at or below the deficit cap.
pub open spec fn seats_flagged(s: SeatSeq) -> bool {
    forall|i: int| 0 <= i < s.len() ==> deficit_flagged(#[trigger] s[i].1)
}

/// Every seat is as a tick finds it.
pub open spec fn seats_tick_ready(s: SeatSeq) -> bool {
    forall|i: int| 0 <= i < s.len() ==> seat_tick_ready(#[trigger] s[i].1)
}

proof fn lemma_lookup_at(u: SeatSeq, m: int)
    requires
        seats_distinct(u),
        0 <= m < u.len(),
    ensures
        seat_lookup(u, u[m].0) == Some(u[m].1),
        seat_index(u, u[m].0) == m,
{
    lemma_seat_index_unique(u, u[m].0, m);
}

proof fn lemma_replay_phase1(s: SeatSeq, cfg: EconomySettings, turn: u64, n: int)
    requires
        seats_distinct(s),
        seats_tick_ready(s),
        0 <= n <= s.len(),
    ensures
        treplay(s, phase1_rows(s.take(n), cfg, turn)) == Some(phase1_seats(s.take(n), cfg, turn) + s.skip(n)),
    decreases n,
{
    if n == 0 {
        assert(s.take(0) =~= Seq::<(Seq<char>, SeatModel)>::empty());
        assert(phase1_seats(s.take(0), cfg, turn) + s.skip(0) =~= s);
    } else {
        let m = n - 1;
        lemma_replay_phase1(s, cfg, turn, m);
        let t = s.take(n);
        assert(t.drop_last() =~= s.take(m));
        assert(t.last() == s[m]);
        let k = s[m].0;
        let e = s[m].1;
        let a = phase1_rows(s.take(m), cfg, turn);
        let b = seat_tick_rows(k, e, cfg, turn);
        assert(phase1_rows(t, cfg, turn) == a + b);
        lemma_treplay_append(s, a, b);
        let u = phase1_seats(s.take(m), cfg, turn) + s.skip(m);
        assert forall|i: int| 0 <= i < u.len() implies (#[trigger] u[i]).0 == s[i].0 by {
            if i < m {
                assert(u[i] == phase1_seats(s.take(m), cfg, turn)[i]);
            } else {
                assert(u[i] == s[i]);
            }
        }
        assert(seats_distinct(u)) by {
            assert forall|i: int, j: int| 0 <= i < j < u.len() implies u[i].0 != u[j].0 by {
                assert(u[i].0 == s[i].0);
                assert(u[j].0 == s[j].0);
            }
        }
        assert(u[m] == s[m]);
        lemma_lookup_at(u, m);
        assert(seat_tick_ready(s[m].1));
        lemma_fold_tick_seat(k, e, cfg, turn);
        lemma_treplay_one_seat(u, k, e, b);
        assert(seat_put(u, k, tick_seat(e, cfg, turn)) =~= phase1_seats(t, cfg, turn) + s.skip(n));
    }
}

proof fn lemma_replay_phase2(s: SeatSeq, cfg: EconomySettings, turn: u64, n: int)
    requires
        seats_distinct(s),
        0 <= n <= s.len(),
    ensures
        treplay(s, phase2_rows(s.take(n), cfg, turn)) == Some(phase2_seats(s.take(n), cfg) + s.skip(n)),
    decreases n,
{
    if n == 0 {
        assert(s.take(0) =~= Seq::<(Seq<char>, SeatModel)>::empty());
        assert(phase2_seats(s.take(0), cfg) + s.skip(0) =~= s);
    } else {
        let m = n - 1;
        lemma_replay_phase2(s, cfg, turn, m);
        let t = s.take(n);
        assert(t.drop_last() =~= s.take(m));
        assert(t.last() == s[m]);
        let k = s[m].0;
        let e = s[m].1;
        let a = phase2_rows(s.take(m), cfg, turn);
        let b = decay_rows(k, e, cfg, turn);
        assert(phase2_rows(t, cfg, turn) == a + b);
        lemma_treplay_append(s, a, b);
        let u = phase2_seats(s.take(m), cfg) + s.skip(m);
        assert forall|i: int| 0 <= i < u.len() implies (#[trigger] u[i]).0 == s[i].0 by {
            if i < m {
                assert(u[i] == phase2_seats(s.take(m), cfg)[i]);
            } else {
                assert(u[i] == s[i]);
            }
        }
        assert(seats_distinct(u)) by {
            assert forall|i: int, j: int| 0 <= i < j < u.len() implies u[i].0 != u[j].0 by {
                assert(u[i].0 == s[i].0);
                assert(u[j].0 == s[j].0);
            }
        }
        assert(u[m] == s[m]);
        lemma_lookup_at(u, m);
        lemma_fold_decay(k, e, cfg, turn);
        lemma_treplay_one_seat(u, k, e, b);
        assert(seat_put(u, k, decay_seat(e, cfg)) =~= phase2_seats(t, cfg) + s.skip(n));
    }
}

proof fn lemma_put_flagged(s: SeatSeq, k: Seq<char>, v: SeatModel)
    requires
        seats_flagged(s),
        deficit_flagged(v),
    ensures
        seats_flagged(seat_put(s, k, v)),
{
    lemma_seat_index(s, k);
    let t = seat_put(s, k, v);
    assert forall|i: int| 0 <= i < t.len() implies deficit_flagged(#[trigger] t[i].1) by {
        if seat_index(s, k) >= 0 {
            if i != seat_index(s, k) {
                assert(t[i] == s[i]);
            }
        } else if i < s.len() {
            assert(t[i] == s[i]);
        }
    }
}

proof fn lemma_replay_passive(s: SeatSeq, k: Seq<char>, cfg: EconomySettings, turn: u64)
    requires
        seats_distinct(s),
        seats_flagged(s),
        cfg.passive_per_tick_copper >= 0,
        cfg.starting_balance_copper > DEFICIT_CAP_COPPER,
    ensures
        treplay(s, passive_step(s, k, cfg, turn).1) == Some(passive_step(s, k, cfg, turn).0),
        seats_distinct(passive_step(s, k, cfg, turn).0),
        seats_flagged(passive_step(s, k, cfg, turn).0),
{
    lemma_literals();
    lemma_seat_index(s, k);
    let start = cfg.starting_balance_copper;
    let p = cfg.passive_per_tick_copper as int;
    let e = seat_or_start(s, k, start);
    let e2 = credit(e, p);
    let rows = passive_step(s, k, cfg, turn).1;
    let pr = rows.last();
    assert(pr.txn == "passive"@ && pr.seat == k && pr.amount == p);
    lemma_seat_put(s, k, e2);
    match seat_lookup(s, k) {
        Some(x) => {
            assert(x == s[seat_index(s, k)].1);
            assert(deficit_flagged(x));
            assert(rows =~= seq![pr]);
            assert(all_of_seat(rows, k));
            lemma_fold_one(x, pr);
            assert(tick_row_effect(x, pr) == Some(e2));
            lemma_treplay_one_seat(s, k, x, rows);
            lemma_put_flagged(s, k, e2);
        },
        None => {
            let ir = rows[0];
            assert(rows =~= seq![ir, pr]);
            assert(ir.txn == "init"@ && ir.seat == k && ir.amount == start);
            let s0 = SeatModel { balance: start, ..empty_seat() };
            assert(seat_or_empty(s, k) == empty_seat());
            assert(tick_row_effect(empty_seat(), ir) == Some(s0));
            assert(seq![ir, pr].drop_last() =~= seq![ir]);
            assert(seq![ir].drop_last() =~= Seq::<TickRow>::empty());
            assert(seq![ir].last() == ir);
            assert(treplay(s, Seq::<TickRow>::empty()) == Some(s));
            assert(treplay(s, seq![ir]) == Some(seat_put(s, k, s0)));
            lemma_seat_put(s, k, s0);
            lemma_seat_put_twice(s, k, s0, e2);
            assert(tick_row_effect(s0, pr) == Some(e2));
            lemma_put_flagged(s, k, e2);
        },
    }
}

proof fn lemma_replay_phase3(s: SeatSeq, active: Seq<Seq<char>>, cfg: EconomySettings, turn: u64)
    requires
        seats_distinct(s),
        seats_flagged(s),
        cfg.passive_per_tick_copper >= 0,
        cfg.starting_balance_copper > DEFICIT_CAP_COPPER,
    ensures
        treplay(s, phase3(s, active, cfg, turn).1) == Some(phase3(s, active, cfg, turn).0),
        seats_distinct(phase3(s, active, cfg, turn).0),
        seats_flagged(phase3(s, active, cfg, turn).0),
    decreases active.len(),
{
    if active.len() == 0 {
        assert(treplay(s, Seq::<TickRow>::empty()) == Some(s));
    } else {
        lemma_replay_phase3(s, active.drop_last(), cfg, turn);
        let (s1, r1) = phase3(s, active.drop_last(), cfg, turn);
        lemma_replay_passive(s1, active.last(), cfg, turn);
        let (s2, r2) = passive_step(s1, active.last(), cfg, turn);
        lemma_treplay_append(s, r1, r2);
    }
}

// ---------------------------------------------------------------------------
// The law
// ---------------------------------------------------------------------------

/// A tick's rows replay to the tick's seats: for seats as replay leaves them
/// (a seat at or below the deficit cap is timed out, escrow amounts are not
/// negative, escrow ids are distinct in each seat) and settings whose
/// passive income is not negative and whose starting balance and decay
/// floor lie above the deficit cap, applying the ledger rows of a tick (as
/// `process_tick` numbers and writes them) in order to the seats before the
/// tick, each as `apply_row` applies it, gives the seats after the tick.
pub proof fn law_tick_rows_replay(
    s: SeatSeq,
    cfg: EconomySettings,
    on_mic_advance: bool,
    active: Seq<Seq<char>>,
    turn: u64,
    rows: Seq<LedgerRow>,
    start: int,
    now: Seq<char>,
)
    requires
        seats_distinct(s),
        seats_tick_ready(s),
        cfg.passive_per_tick_copper >= 0,
        cfg.starting_balance_copper > DEFICIT_CAP_COPPER,
        cfg.decay_floor_copper > DEFICIT_CAP_COPPER,
        rows_match(rows, start, tick_result(s, cfg, on_mic_advance, active, turn).1, turn, now),
    ensures
        replay_from(s, rows) == Ok::<SeatSeq, Seq<char>>(tick_result(s, cfg, on_mic_advance, active, turn).0),
{
    let s1 = phase1_seats(s, cfg, turn);
    let s2 = phase2_seats(s1, cfg);
    let r1 = phase1_rows(s, cfg, turn);
    let r2 = phase2_rows(s1, cfg, turn);
    assert(s.take(s.len() as int) =~= s);
    lemma_replay_phase1(s, cfg, turn, s.len() as int);
    assert(s1 + s.skip(s.len() as int) =~= s1);
    // the seats after the first part: same labels, flagged
    assert forall|i: int| 0 <= i < s1.len() implies (#[trigger] s1[i]).0 == s[i].0 && deficit_flagged(s1[i].1) by {
        assert(seat_tick_ready(s[i].1));
        lemma_fold_tick_seat(s[i].0, s[i].1, cfg, turn);
    }
    assert(seats_distinct(s1)) by {
        assert forall|i: int, j: int| 0 <= i < j < s1.len() implies s1[i].0 != s1[j].0 by {
            assert(s1[i].0 == s[i].0);
            assert(s1[j].0 == s[j].0);
        }
    }
    assert(s1.take(s1.len() as int) =~= s1);
    lemma_replay_phase2(s1, cfg, turn, s1.len() as int);
    assert(s2 + s1.skip(s1.len() as int) =~= s2);
    lemma_treplay_append(s, r1, r2);
    assert forall|i: int| 0 <= i < s2.len() implies (#[trigger] s2[i]).0 == s1[i].0 && deficit_flagged(s2[i].1) by {
        assert(deficit_flagged(s1[i].1));
        lemma_decay_flagged(s1[i].1, cfg);
    }
    assert(seats_distinct(s2)) by {
        assert forall|i: int, j: int| 0 <= i < j < s2.len() implies s2[i].0 != s2[j].0 by {
            assert(s2[i].0 == s1[i].0);
            assert(s2[j].0 == s1[j].0);
        }
    }
    assert(seats_flagged(s2));
    let trows = tick_result(s, cfg, on_mic_advance, active, turn).1;
    if on_mic_advance {
        lemma_replay_phase3(s2, active, cfg, turn);
        let (s3, r3) = phase3(s2, active, cfg, turn);
        lemma_treplay_append(s, r1 + r2, r3);
    }
    lemma_replay_of_tick_rows(s, rows, start, trows, turn, now);
}

/// Replaying a longer ledger is replaying its first part, then the rest from
/// the seats that part gave: a snapshot that agrees with the replay of a
/// ledger still agrees after rows are appended to both.
pub proof fn law_replay_extends(ledger: Seq<LedgerRow>, more: Seq<LedgerRow>)
    ensures
        crate::currency::replay_spec(ledger + more) == match crate::currency::replay_spec(ledger) {
            Ok(s) => replay_from(s, more),
            Err(m) => Err(m),
        },
    decreases more.len(),
{
    if more.len() == 0 {
        assert(ledger + more =~= ledger);
    } else {
        law_replay_extends(ledger, more.drop_last());
        assert((ledger + more).drop_last() =~= ledger + more.drop_last());
        assert((ledger + more).last() == more.last());
    }
}

} // verus!
