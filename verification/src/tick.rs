//! One currency tick: the turn advances; every seat earns interest on its
//! held escrow and collects its matured escrow; every seat pays the decay
//! tax; on a mic-advance tick every active seat earns the passive income
//! (and a seat never seen before joins at the starting balance first).
//!
//! The tick works on a balances snapshot and returns the ledger rows it
//! produced, numbered from the snapshot's `next_txn_id`. Reading and writing
//! the files, and the sweep of overdue bounties, are the caller's.
use vstd::prelude::*;

use crate::currency::{
    clamp_i64, copper_bucket, credit, decay_fits, decay_split, decay_split_spec, make_row,
    opt_text, put_back, row_is, sat_add, sat_sub, seat_or_start, seat_put, seats_distinct,
    silver_bucket, take_or_start, tdiv, trunc_div, copper_to_display, lemma_seat_put, seat_lookup,
    lemma_seat_put_twice, ActionKind, BalancesSnapshot, EconomySettings, EscrowItem, LedgerRow,
    SeatBalance, SeatModel, SeatSeq,
};
use crate::text::{dec, dec_int, i64_dec, push_chars, push_str, string_from_chars, u64_dec};

verus! {

// ---------------------------------------------------------------------------
// Rows of a tick
// ---------------------------------------------------------------------------

/// A ledger row of a tick, without the parts every tick row shares (its id,
/// the tick's turn and timestamp, no release turn and no linked edit).
pub struct TickRow {
    pub txn: Seq<char>,
    pub seat: Seq<char>,
    pub amount: int,
    pub reason: Seq<char>,
    pub ref_msg: Option<u64>,
    pub balance_after: int,
    pub escrow_id: Option<Seq<char>>,
    pub kind: Option<ActionKind>,
}

/// `r` is the tick row `t` with id `id`, written at `turn` and `now`.
pub open spec fn tick_row_is(r: LedgerRow, id: int, t: TickRow, turn: u64, now: Seq<char>) -> bool {
    row_is(
        r,
        id as u64,
        t.txn,
        t.seat,
        t.amount,
        t.reason,
        t.ref_msg,
        t.balance_after,
        t.escrow_id,
        None,
        Some(turn),
        t.kind,
        None,
        now,
    )
}

/// `rows` are the tick rows `acc`, numbered from `start`.
pub open spec fn rows_match(rows: Seq<LedgerRow>, start: int, acc: Seq<TickRow>, turn: u64, now: Seq<char>) -> bool {
    &&& rows.len() == acc.len()
    &&& forall|j: int| 0 <= j < rows.len() ==> tick_row_is(#[trigger] rows[j], start + j, acc[j], turn, now)
}

// ---------------------------------------------------------------------------
// Interest on held escrow
// ---------------------------------------------------------------------------

/// Interest an escrow item earns: items of at least the minimum earn
/// `per10` for every whole ten copper held (Rust's truncating division).
pub open spec fn interest_term(it: EscrowItem, min: i64, per10: i64) -> int {
    if it.amount >= min {
        tdiv(it.amount as int, 10) * per10
    } else {
        0
    }
}

pub open spec fn interest_sum(items: Seq<EscrowItem>, min: i64, per10: i64) -> int
    decreases items.len(),
{
    if items.len() == 0 {
        0
    } else {
        interest_sum(items.drop_last(), min, per10) + interest_term(items.last(), min, per10)
    }
}

/// Every product and every partial sum of the interest stays in `i64`.
pub open spec fn interest_fits(items: Seq<EscrowItem>, min: i64, per10: i64) -> bool {
    forall|k: int|
        0 <= k < items.len() ==> {
            &&& i64::MIN <= #[trigger] interest_term(items[k], min, per10) <= i64::MAX
            &&& i64::MIN <= interest_sum(items.take(k + 1), min, per10) <= i64::MAX
        }
}

pub open spec fn seat_interest(e: SeatModel, cfg: EconomySettings) -> int {
    interest_sum(e.items, cfg.interest_min_held_copper, cfg.interest_per_10_copper_held)
}

/// The seat once its interest (when positive) is credited.
pub open spec fn after_interest(e: SeatModel, cfg: EconomySettings) -> SeatModel {
    let i = seat_interest(e, cfg);
    if i > 0 {
        credit(e, i)
    } else {
        e
    }
}

// ---------------------------------------------------------------------------
// Release of matured escrow
// ---------------------------------------------------------------------------

/// Items whose release turn has come, in order.
pub open spec fn mature_items(items: Seq<EscrowItem>, turn: u64) -> Seq<EscrowItem>
    decreases items.len(),
{
    if items.len() == 0 {
        Seq::empty()
    } else if items.last().release_turn <= turn {
        mature_items(items.drop_last(), turn).push(items.last())
    } else {
        mature_items(items.drop_last(), turn)
    }
}

/// Items still held, in order.
pub open spec fn pending_items(items: Seq<EscrowItem>, turn: u64) -> Seq<EscrowItem>
    decreases items.len(),
{
    if items.len() == 0 {
        Seq::empty()
    } else if items.last().release_turn <= turn {
        pending_items(items.drop_last(), turn)
    } else {
        pending_items(items.drop_last(), turn).push(items.last())
    }
}

/// Settling one item: its amount joins the balance (saturating) and leaves
/// the held total (which never goes below zero).
pub open spec fn release_one(e: SeatModel, it: EscrowItem) -> SeatModel {
    let held = e.escrow_held - it.amount;
    SeatModel {
        balance: clamp_i64(e.balance + it.amount) as i64,
        escrow_held: (if held > 0 { held } else { 0 }) as i64,
        ..e
    }
}

pub open spec fn release_all(e: SeatModel, m: Seq<EscrowItem>) -> SeatModel
    decreases m.len(),
{
    if m.len() == 0 {
        e
    } else {
        release_one(release_all(e, m.drop_last()), m.last())
    }
}

/// The held total minus each settled amount stays in `i64`.
pub open spec fn release_fits(e: SeatModel, m: Seq<EscrowItem>) -> bool {
    forall|k: int|
        0 <= k < m.len() ==> i64::MIN <= #[trigger] release_all(e, m.take(k)).escrow_held - m[k].amount
            <= i64::MAX
}

/// A seat after the first part of a tick: interest, then every matured item
/// settled in order; the unmatured items stay held.
pub open spec fn tick_seat(e: SeatModel, cfg: EconomySettings, turn: u64) -> SeatModel {
    let e2 = release_all(after_interest(e, cfg), mature_items(e.items, turn));
    SeatModel { items: pending_items(e.items, turn), ..e2 }
}

pub open spec fn interest_reason(turn: u64) -> Seq<char> {
    "escrow interest @turn "@ + dec(turn as nat)
}

pub open spec fn credit_reason(action: Seq<char>, turn: u64) -> Seq<char> {
    "escrow release: "@ + action + " settled @turn "@ + dec(turn as nat)
}

pub open spec fn matured_reason(action: Seq<char>, turn: u64) -> Seq<char> {
    "escrow matured: "@ + action + " @turn "@ + dec(turn as nat)
}

/// The `interest` row of a seat, when its interest is positive.
pub open spec fn interest_rows(k: Seq<char>, e: SeatModel, cfg: EconomySettings, turn: u64) -> Seq<TickRow> {
    let i = seat_interest(e, cfg);
    if i > 0 {
        seq![
            TickRow {
                txn: "interest"@,
                seat: k,
                amount: i,
                reason: interest_reason(turn),
                ref_msg: None,
                balance_after: credit(e, i).balance as int,
                escrow_id: None,
                kind: None,
            },
        ]
    } else {
        Seq::empty()
    }
}

/// A `credit` row and an `escrow_release` row per settled item.
pub open spec fn release_rows(k: Seq<char>, e: SeatModel, m: Seq<EscrowItem>, turn: u64) -> Seq<TickRow>
    decreases m.len(),
{
    if m.len() == 0 {
        Seq::empty()
    } else {
        let it = m.last();
        let b = release_all(e, m).balance as int;
        release_rows(k, e, m.drop_last(), turn) + seq![
            TickRow {
                txn: "credit"@,
                seat: k,
                amount: it.amount as int,
                reason: credit_reason(it.action@, turn),
                ref_msg: it.ref_msg,
                balance_after: b,
                escrow_id: Some(it.id@),
                kind: None,
            },
            TickRow {
                txn: "escrow_release"@,
                seat: k,
                amount: it.amount as int,
                reason: matured_reason(it.action@, turn),
                ref_msg: it.ref_msg,
                balance_after: b,
                escrow_id: Some(it.id@),
                kind: None,
            },
        ]
    }
}

pub open spec fn seat_tick_rows(k: Seq<char>, e: SeatModel, cfg: EconomySettings, turn: u64) -> Seq<TickRow> {
    interest_rows(k, e, cfg, turn) + release_rows(k, after_interest(e, cfg), mature_items(e.items, turn), turn)
}

pub open spec fn phase1_seats(s: SeatSeq, cfg: EconomySettings, turn: u64) -> SeatSeq {
    s.map_values(|p: (Seq<char>, SeatModel)| (p.0, tick_seat(p.1, cfg, turn)))
}

pub open spec fn phase1_rows(s: SeatSeq, cfg: EconomySettings, turn: u64) -> Seq<TickRow>
    decreases s.len(),
{
    if s.len() == 0 {
        Seq::empty()
    } else {
        phase1_rows(s.drop_last(), cfg, turn) + seat_tick_rows(s.last().0, s.last().1, cfg, turn)
    }
}

// ---------------------------------------------------------------------------
// Decay
// ---------------------------------------------------------------------------

pub open spec fn decay_pair(e: SeatModel, cfg: EconomySettings) -> (int, int) {
    decay_split_spec(
        e.balance as int,
        cfg.decay_floor_copper as int,
        cfg.decay_copper_pct_per_turn_tenths as int,
        cfg.decay_silver_pct_per_turn_tenths as int,
    )
}

pub open spec fn decay_first(e: SeatModel, cfg: EconomySettings) -> int {
    let c = decay_pair(e, cfg).0;
    if c > 0 {
        clamp_i64(e.balance - c)
    } else {
        e.balance as int
    }
}

pub open spec fn decay_second(e: SeatModel, cfg: EconomySettings) -> int {
    let s = decay_pair(e, cfg).1;
    let b1 = decay_first(e, cfg);
    if s > 0 {
        clamp_i64(b1 - s)
    } else {
        b1
    }
}

/// A seat after the decay tax (copper row first, then silver row).
pub open spec fn decay_seat(e: SeatModel, cfg: EconomySettings) -> SeatModel {
    SeatModel { balance: decay_second(e, cfg) as i64, ..e }
}

pub open spec fn copper_decay_reason(turn: u64, bucket: int) -> Seq<char> {
    "copper decay @turn "@ + dec(turn as nat) + " (1.0% of "@ + dec_int(bucket) + "c bucket)"@
}

pub open spec fn silver_decay_reason(turn: u64, bucket: int) -> Seq<char> {
    "silver decay @turn "@ + dec(turn as nat) + " (0.5% of "@ + dec_int(bucket) + "s bucket)"@
}

/// The `decay` rows of a seat (each only when its amount is positive).
pub open spec fn decay_rows(k: Seq<char>, e: SeatModel, cfg: EconomySettings, turn: u64) -> Seq<TickRow> {
    let (c, s) = decay_pair(e, cfg);
    let first = if c > 0 {
        seq![
            TickRow {
                txn: "decay"@,
                seat: k,
                amount: -c,
                reason: copper_decay_reason(turn, copper_bucket(e.balance as int)),
                ref_msg: None,
                balance_after: decay_first(e, cfg),
                escrow_id: None,
                kind: Some(ActionKind::Decay),
            },
        ]
    } else {
        Seq::empty()
    };
    let second = if s > 0 {
        seq![
            TickRow {
                txn: "decay"@,
                seat: k,
                amount: -s,
                reason: silver_decay_reason(turn, silver_bucket(e.balance as int)),
                ref_msg: None,
                balance_after: decay_second(e, cfg),
                escrow_id: None,
                kind: Some(ActionKind::Decay),
            },
        ]
    } else {
        Seq::empty()
    };
    first + second
}

pub open spec fn phase2_seats(s: SeatSeq, cfg: EconomySettings) -> SeatSeq {
    s.map_values(|p: (Seq<char>, SeatModel)| (p.0, decay_seat(p.1, cfg)))
}

pub open spec fn phase2_rows(s: SeatSeq, cfg: EconomySettings, turn: u64) -> Seq<TickRow>
    decreases s.len(),
{
    if s.len() == 0 {
        Seq::empty()
    } else {
        phase2_rows(s.drop_last(), cfg, turn) + decay_rows(s.last().0, s.last().1, cfg, turn)
    }
}

// ---------------------------------------------------------------------------
// Passive income
// ---------------------------------------------------------------------------

pub open spec fn passive_reason(turn: u64) -> Seq<char> {
    "passive rotation tick @turn "@ + dec(turn as nat)
}

pub open spec fn join_reason() -> Seq<char> {
    "join: initial balance (passive tick)"@
}

/// One active seat's passive income, joining it at the starting balance
/// first when it has no balance yet.
pub open spec fn passive_step(s: SeatSeq, k: Seq<char>, cfg: EconomySettings, turn: u64) -> (SeatSeq, Seq<TickRow>) {
    let start = cfg.starting_balance_copper;
    let e = seat_or_start(s, k, start);
    let e2 = credit(e, cfg.passive_per_tick_copper as int);
    let join = if seat_lookup(s, k) is None {
        seq![
            TickRow {
                txn: "init"@,
                seat: k,
                amount: start as int,
                reason: join_reason(),
                ref_msg: None,
                balance_after: start as int,
                escrow_id: None,
                kind: Some(ActionKind::Init),
            },
        ]
    } else {
        Seq::empty()
    };
    (
        seat_put(s, k, e2),
        join.push(
            TickRow {
                txn: "passive"@,
                seat: k,
                amount: cfg.passive_per_tick_copper as int,
                reason: passive_reason(turn),
                ref_msg: None,
                balance_after: e2.balance as int,
                escrow_id: None,
                kind: None,
            },
        ),
    )
}

pub open spec fn phase3(s: SeatSeq, active: Seq<Seq<char>>, cfg: EconomySettings, turn: u64) -> (SeatSeq, Seq<TickRow>)
    decreases active.len(),
{
    if active.len() == 0 {
        (s, Seq::empty())
    } else {
        let (s1, r1) = phase3(s, active.drop_last(), cfg, turn);
        let (s2, r2) = passive_step(s1, active.last(), cfg, turn);
        (s2, r1 + r2)
    }
}

// ---------------------------------------------------------------------------
// The whole tick
// ---------------------------------------------------------------------------

/// `u64::saturating_add(t, 1)`.
pub open spec fn next_turn(t: u64) -> u64 {
    if t == u64::MAX {
        t
    } else {
        (t + 1) as u64
    }
}

/// Seats and rows of a tick at `turn` (the turn already advanced).
pub open spec fn tick_result(
    s: SeatSeq,
    cfg: EconomySettings,
    on_mic_advance: bool,
    active: Seq<Seq<char>>,
    turn: u64,
) -> (SeatSeq, Seq<TickRow>) {
    let s1 = phase1_seats(s, cfg, turn);
    let s2 = phase2_seats(s1, cfg);
    let r12 = phase1_rows(s, cfg, turn) + phase2_rows(s1, cfg, turn);
    if on_mic_advance {
        let (s3, r3) = phase3(s2, active, cfg, turn);
        (s3, r12 + r3)
    } else {
        (s2, r12)
    }
}

/// The tick's arithmetic stays in `i64` for every seat.
pub open spec fn tick_fits(s: SeatSeq, cfg: EconomySettings, turn: u64) -> bool {
    &&& forall|i: int|
        0 <= i < s.len() ==> interest_fits(
            (#[trigger] s[i]).1.items,
            cfg.interest_min_held_copper,
            cfg.interest_per_10_copper_held,
        )
    &&& forall|i: int|
        0 <= i < s.len() ==> release_fits(
            after_interest((#[trigger] s[i]).1, cfg),
            mature_items(s[i].1.items, turn),
        )
    &&& forall|i: int|
        0 <= i < s.len() ==> decay_fits(
            tick_seat((#[trigger] s[i]).1, cfg, turn).balance as int,
            cfg.decay_floor_copper as int,
            cfg.decay_copper_pct_per_turn_tenths as int,
            cfg.decay_silver_pct_per_turn_tenths as int,
        )
}

pub open spec fn text_seq(v: Seq<String>) -> Seq<Seq<char>> {
    v.map_values(|x: String| x@)
}

// ---------------------------------------------------------------------------
// Building the rows
// ---------------------------------------------------------------------------

proof fn lemma_rows_push(
    rows: Seq<LedgerRow>,
    start: int,
    acc: Seq<TickRow>,
    turn: u64,
    now: Seq<char>,
    r: LedgerRow,
    t: TickRow,
)
    requires
        rows_match(rows, start, acc, turn, now),
        tick_row_is(r, start + acc.len(), t, turn, now),
    ensures
        rows_match(rows.push(r), start, acc.push(t), turn, now),
{
    assert forall|j: int| 0 <= j < rows.len() + 1 implies tick_row_is(
        #[trigger] rows.push(r)[j],
        start + j,
        acc.push(t)[j],
        turn,
        now,
    ) by {
        if j < rows.len() {
            assert(rows.push(r)[j] == rows[j]);
            assert(acc.push(t)[j] == acc[j]);
        }
    }
}

/// Append the tick row `t` (given by its parts), numbered after the rows so far.
fn push_row(
    rows: &mut Vec<LedgerRow>,
    start: u64,
    txn: &str,
    seat: &str,
    amount: i64,
    reason: String,
    ref_msg: Option<u64>,
    bal: i64,
    escrow_id: Option<String>,
    kind: Option<ActionKind>,
    turn: u64,
    now: &str,
    Ghost(acc): Ghost<Seq<TickRow>>,
)
    requires
        rows_match(old(rows)@, start as int, acc, turn, now@),
        start + acc.len() <= u64::MAX,
    ensures
        rows_match(
            final(rows)@,
            start as int,
            acc.push(
                TickRow {
                    txn: txn@,
                    seat: seat@,
                    amount: amount as int,
                    reason: reason@,
                    ref_msg: ref_msg,
                    balance_after: bal as int,
                    escrow_id: opt_text(escrow_id),
                    kind: kind,
                },
            ),
            turn,
            now@,
        ),
{
    let ghost t = TickRow {
        txn: txn@,
        seat: seat@,
        amount: amount as int,
        reason: reason@,
        ref_msg: ref_msg,
        balance_after: bal as int,
        escrow_id: opt_text(escrow_id),
        kind: kind,
    };
    let id: u64 = start + rows.len() as u64;
    let r = make_row(id, txn, seat, amount, reason, ref_msg, bal, escrow_id, None, Some(turn), kind, None, now);
    proof {
        lemma_rows_push(rows@, start as int, acc, turn, now@, r, t);
    }
    rows.push(r);
}

/// `prefix` followed by the decimal turn.
fn turn_text(prefix: &str, turn: u64) -> (r: String)
    ensures
        r@ == prefix@ + dec(turn as nat),
{
    let mut v: Vec<char> = Vec::new();
    push_str(&mut v, prefix);
    let d = u64_dec(turn);
    push_chars(&mut v, &d);
    string_from_chars(&v)
}

fn action_turn_text(a: &str, action: &str, b: &str, turn: u64) -> (r: String)
    ensures
        r@ == a@ + action@ + b@ + dec(turn as nat),
{
    let mut v: Vec<char> = Vec::new();
    push_str(&mut v, a);
    push_str(&mut v, action);
    push_str(&mut v, b);
    let d = u64_dec(turn);
    push_chars(&mut v, &d);
    string_from_chars(&v)
}

fn decay_text(a: &str, turn: u64, b: &str, bucket: i64, c: &str) -> (r: String)
    ensures
        r@ == a@ + dec(turn as nat) + b@ + dec_int(bucket as int) + c@,
{
    let mut v: Vec<char> = Vec::new();
    push_str(&mut v, a);
    let d = u64_dec(turn);
    push_chars(&mut v, &d);
    push_str(&mut v, b);
    let k = i64_dec(bucket);
    push_chars(&mut v, &k);
    push_str(&mut v, c);
    string_from_chars(&v)
}

// ---------------------------------------------------------------------------
// Interest and release of one seat
// ---------------------------------------------------------------------------

proof fn lemma_interest_take(items: Seq<EscrowItem>, j: int, min: i64, per10: i64)
    requires
        0 <= j < items.len(),
    ensures
        interest_sum(items.take(j + 1), min, per10) == interest_sum(items.take(j), min, per10)
            + interest_term(items[j], min, per10),
{
    assert(items.take(j + 1).drop_last() =~= items.take(j));
    assert(items.take(j + 1).last() == items[j]);
}

fn interest_of(items: &Vec<EscrowItem>, cfg: &EconomySettings) -> (r: i64)
    requires
        interest_fits(items@, cfg.interest_min_held_copper, cfg.interest_per_10_copper_held),
    ensures
        r == interest_sum(items@, cfg.interest_min_held_copper, cfg.interest_per_10_copper_held),
{
    let min = cfg.interest_min_held_copper;
    let per10 = cfg.interest_per_10_copper_held;
    let mut acc: i64 = 0;
    let mut j: usize = 0;
    assert(items@.take(0) =~= Seq::<EscrowItem>::empty());
    while j < items.len()
        invariant
            j <= items.len(),
            min == cfg.interest_min_held_copper,
            per10 == cfg.interest_per_10_copper_held,
            interest_fits(items@, min, per10),
            acc == interest_sum(items@.take(j as int), min, per10),
        decreases items.len() - j,
    {
        proof {
            lemma_interest_take(items@, j as int, min, per10);
        }
        let it = &items[j];
        assert(i64::MIN <= interest_term(items@[j as int], min, per10) <= i64::MAX);
        assert(i64::MIN <= interest_sum(items@.take(j + 1), min, per10) <= i64::MAX);
        if it.amount >= min {
            let q = trunc_div(it.amount, 10);
            let term = q * per10;
            acc = acc + term;
        }
        j = j + 1;
    }
    assert(items@.take(items.len() as int) =~= items@);
    acc
}

proof fn lemma_split_take(items: Seq<EscrowItem>, j: int, turn: u64)
    requires
        0 <= j < items.len(),
    ensures
        mature_items(items.take(j + 1), turn) == (if items[j].release_turn <= turn {
            mature_items(items.take(j), turn).push(items[j])
        } else {
            mature_items(items.take(j), turn)
        }),
        pending_items(items.take(j + 1), turn) == (if items[j].release_turn <= turn {
            pending_items(items.take(j), turn)
        } else {
            pending_items(items.take(j), turn).push(items[j])
        }),
{
    assert(items.take(j + 1).drop_last() =~= items.take(j));
    assert(items.take(j + 1).last() == items[j]);
}

/// Split the items into the matured and the still-held, keeping their order.
fn split_items(items: &Vec<EscrowItem>, turn: u64) -> (r: (Vec<EscrowItem>, Vec<EscrowItem>))
    ensures
        r.0@ == mature_items(items@, turn),
        r.1@ == pending_items(items@, turn),
{
    let mut mature: Vec<EscrowItem> = Vec::new();
    let mut keep: Vec<EscrowItem> = Vec::new();
    let mut j: usize = 0;
    assert(items@.take(0) =~= Seq::<EscrowItem>::empty());
    while j < items.len()
        invariant
            j <= items.len(),
            mature@ == mature_items(items@.take(j as int), turn),
            keep@ == pending_items(items@.take(j as int), turn),
        decreases items.len() - j,
    {
        proof {
            lemma_split_take(items@, j as int, turn);
        }
        let it = items[j].clone_item();
        if it.release_turn <= turn {
            mature.push(it);
        } else {
            keep.push(it);
        }
        j = j + 1;
    }
    assert(items@.take(items.len() as int) =~= items@);
    (mature, keep)
}

proof fn lemma_release_keeps(e: SeatModel, m: Seq<EscrowItem>)
    ensures
        release_all(e, m).timed_out == e.timed_out,
        release_all(e, m).ban_until == e.ban_until,
        release_all(e, m).items == e.items,
    decreases m.len(),
{
    if m.len() > 0 {
        lemma_release_keeps(e, m.drop_last());
    }
}

proof fn lemma_release_rows_len(k: Seq<char>, e: SeatModel, m: Seq<EscrowItem>, turn: u64)
    ensures
        release_rows(k, e, m, turn).len() == 2 * m.len(),
    decreases m.len(),
{
    if m.len() > 0 {
        lemma_release_rows_len(k, e, m.drop_last(), turn);
    }
}

/// Interest, then the release of matured escrow, for one seat.
fn tick_seat_exec(
    e: &mut SeatBalance,
    label: &str,
    cfg: &EconomySettings,
    turn: u64,
    now: &str,
    start: u64,
    rows: &mut Vec<LedgerRow>,
    Ghost(acc): Ghost<Seq<TickRow>>,
)
    requires
        rows_match(old(rows)@, start as int, acc, turn, now@),
        start + acc.len() + seat_tick_rows(label@, old(e)@, *cfg, turn).len() <= u64::MAX,
        interest_fits(old(e)@.items, cfg.interest_min_held_copper, cfg.interest_per_10_copper_held),
        release_fits(after_interest(old(e)@, *cfg), mature_items(old(e)@.items, turn)),
    ensures
        final(e)@ == tick_seat(old(e)@, *cfg, turn),
        rows_match(final(rows)@, start as int, acc + seat_tick_rows(label@, old(e)@, *cfg, turn), turn, now@),
{
    let ghost e0 = e@;
    let interest = interest_of(&e.escrow_items, cfg);
    let ghost acc1 = acc + interest_rows(label@, e0, *cfg, turn);
    proof {
        lemma_release_rows_len(label@, after_interest(e0, *cfg), mature_items(e0.items, turn), turn);
    }
    if interest > 0 {
        e.balance = sat_add(e.balance, interest);
        let reason = turn_text("escrow interest @turn ", turn);
        push_row(rows, start, "interest", label, interest, reason, None, e.balance, None, None, turn, now, Ghost(acc));
        assert(acc1 =~= acc.push(interest_rows(label@, e0, *cfg, turn)[0]));
    } else {
        assert(acc1 =~= acc);
    }
    let ghost e1 = e@;
    assert(e1 == after_interest(e0, *cfg));
    let (mature, keep) = split_items(&e.escrow_items, turn);
    e.escrow_items = keep;
    let ghost m = mature@;
    let mut j: usize = 0;
    assert(m.take(0) =~= Seq::<EscrowItem>::empty());
    assert(acc1 + release_rows(label@, e1, m.take(0), turn) =~= acc1);
    while j < mature.len()
        invariant
            j <= mature.len(),
            m == mature@,
            m == mature_items(e0.items, turn),
            e1 == after_interest(e0, *cfg),
            e.balance == release_all(e1, m.take(j as int)).balance,
            e.escrow_held == release_all(e1, m.take(j as int)).escrow_held,
            e.timed_out == e0.timed_out,
            e.system_dispute_ban_until == e0.ban_until,
            e.escrow_items@ == pending_items(e0.items, turn),
            e1.timed_out == e0.timed_out,
            e1.ban_until == e0.ban_until,
            rows_match(rows@, start as int, acc1 + release_rows(label@, e1, m.take(j as int), turn), turn, now@),
            start + acc1.len() + 2 * m.len() <= u64::MAX,
            release_fits(e1, m),
        decreases mature.len() - j,
    {
        proof {
            assert(m.take(j + 1).drop_last() =~= m.take(j as int));
            assert(m.take(j + 1).last() == m[j as int]);
            lemma_release_rows_len(label@, e1, m.take(j as int), turn);
            assert(i64::MIN <= release_all(e1, m.take(j as int)).escrow_held - m[j as int].amount <= i64::MAX);
        }
        let it = &mature[j];
        e.balance = sat_add(e.balance, it.amount);
        let held = e.escrow_held - it.amount;
        e.escrow_held = if held > 0 {
            held
        } else {
            0
        };
        let bal = e.balance;
        let ghost before = acc1 + release_rows(label@, e1, m.take(j as int), turn);
        let r1 = action_turn_text("escrow release: ", it.action.as_str(), " settled @turn ", turn);
        push_row(rows, start, "credit", label, it.amount, r1, it.ref_msg, bal, Some(it.id.clone()), None, turn, now, Ghost(before));
        let ghost t1 = TickRow {
            txn: "credit"@,
            seat: label@,
            amount: it.amount as int,
            reason: credit_reason(it.action@, turn),
            ref_msg: it.ref_msg,
            balance_after: bal as int,
            escrow_id: Some(it.id@),
            kind: None,
        };
        let r2 = action_turn_text("escrow matured: ", it.action.as_str(), " @turn ", turn);
        push_row(rows, start, "escrow_release", label, it.amount, r2, it.ref_msg, bal, Some(it.id.clone()), None, turn, now, Ghost(before.push(t1)));
        j = j + 1;
        proof {
            assert(acc1 + release_rows(label@, e1, m.take(j as int), turn) =~= before.push(t1).push(
                TickRow {
                    txn: "escrow_release"@,
                    seat: label@,
                    amount: m[j - 1].amount as int,
                    reason: matured_reason(m[j - 1].action@, turn),
                    ref_msg: m[j - 1].ref_msg,
                    balance_after: bal as int,
                    escrow_id: Some(m[j - 1].id@),
                    kind: None,
                },
            ));
        }
    }
    proof {
        assert(m.take(m.len() as int) =~= m);
        lemma_release_keeps(e1, m);
        assert(acc + seat_tick_rows(label@, e0, *cfg, turn) =~= acc1 + release_rows(label@, e1, m, turn));
    }
}

// ---------------------------------------------------------------------------
// The three parts over the whole table
// ---------------------------------------------------------------------------

proof fn lemma_phase1_take(s: SeatSeq, i: int, cfg: EconomySettings, turn: u64)
    requires
        0 <= i < s.len(),
    ensures
        phase1_rows(s.take(i + 1), cfg, turn) == phase1_rows(s.take(i), cfg, turn) + seat_tick_rows(
            s[i].0,
            s[i].1,
            cfg,
            turn,
        ),
{
    assert(s.take(i + 1).drop_last() =~= s.take(i));
    assert(s.take(i + 1).last() == s[i]);
}

proof fn lemma_phase1_mono(s: SeatSeq, i: int, cfg: EconomySettings, turn: u64)
    requires
        0 <= i <= s.len(),
    ensures
        phase1_rows(s.take(i), cfg, turn).len() <= phase1_rows(s, cfg, turn).len(),
    decreases s.len(),
{
    if i < s.len() {
        assert(s.drop_last().take(i) =~= s.take(i));
        lemma_phase1_mono(s.drop_last(), i, cfg, turn);
    } else {
        assert(s.take(i) =~= s);
    }
}

proof fn lemma_phase2_take(s: SeatSeq, i: int, cfg: EconomySettings, turn: u64)
    requires
        0 <= i < s.len(),
    ensures
        phase2_rows(s.take(i + 1), cfg, turn) == phase2_rows(s.take(i), cfg, turn) + decay_rows(
            s[i].0,
            s[i].1,
            cfg,
            turn,
        ),
{
    assert(s.take(i + 1).drop_last() =~= s.take(i));
    assert(s.take(i + 1).last() == s[i]);
}

proof fn lemma_phase2_mono(s: SeatSeq, i: int, cfg: EconomySettings, turn: u64)
    requires
        0 <= i <= s.len(),
    ensures
        phase2_rows(s.take(i), cfg, turn).len() <= phase2_rows(s, cfg, turn).len(),
    decreases s.len(),
{
    if i < s.len() {
        assert(s.drop_last().take(i) =~= s.take(i));
        lemma_phase2_mono(s.drop_last(), i, cfg, turn);
    } else {
        assert(s.take(i) =~= s);
    }
}

proof fn lemma_phase3_take(s: SeatSeq, a: Seq<Seq<char>>, j: int, cfg: EconomySettings, turn: u64)
    requires
        0 <= j < a.len(),
    ensures
        phase3(s, a.take(j + 1), cfg, turn) == ({
            let (s1, r1) = phase3(s, a.take(j), cfg, turn);
            let (s2, r2) = passive_step(s1, a[j], cfg, turn);
            (s2, r1 + r2)
        }),
{
    assert(a.take(j + 1).drop_last() =~= a.take(j));
    assert(a.take(j + 1).last() == a[j]);
}

proof fn lemma_phase3_mono(s: SeatSeq, a: Seq<Seq<char>>, j: int, cfg: EconomySettings, turn: u64)
    requires
        0 <= j <= a.len(),
    ensures
        phase3(s, a.take(j), cfg, turn).1.len() <= phase3(s, a, cfg, turn).1.len(),
    decreases a.len(),
{
    if j < a.len() {
        assert(a.drop_last().take(j) =~= a.take(j));
        lemma_phase3_mono(s, a.drop_last(), j, cfg, turn);
    } else {
        assert(a.take(j) =~= a);
    }
}

/// Interest and release for every seat, in table order.
fn tick_phase1(
    snap: &mut BalancesSnapshot,
    cfg: &EconomySettings,
    turn: u64,
    now: &str,
    start: u64,
    rows: &mut Vec<LedgerRow>,
    Ghost(acc): Ghost<Seq<TickRow>>,
)
    requires
        rows_match(old(rows)@, start as int, acc, turn, now@),
        start + acc.len() + phase1_rows(old(snap).seats@, *cfg, turn).len() <= u64::MAX,
        tick_fits(old(snap).seats@, *cfg, turn),
    ensures
        final(snap).seats@ == phase1_seats(old(snap).seats@, *cfg, turn),
        rows_match(final(rows)@, start as int, acc + phase1_rows(old(snap).seats@, *cfg, turn), turn, now@),
        final(snap).turn_counter == old(snap).turn_counter,
        final(snap).next_txn_id == old(snap).next_txn_id,
        final(snap).next_escrow_id == old(snap).next_escrow_id,
        final(snap).next_bounty_id == old(snap).next_bounty_id,
{
    let ghost s0 = snap.seats@;
    let n = snap.seats.len();
    let mut i: usize = 0;
    assert(s0.take(0) =~= Seq::<(Seq<char>, SeatModel)>::empty());
    assert(acc + phase1_rows(s0.take(0), *cfg, turn) =~= acc);
    while i < n
        invariant
            i <= n,
            n == s0.len(),
            snap.seats@.len() == n,
            forall|j: int| 0 <= j < i ==> #[trigger] snap.seats@[j] == (s0[j].0, tick_seat(s0[j].1, *cfg, turn)),
            forall|j: int| i <= j < n ==> #[trigger] snap.seats@[j] == s0[j],
            rows_match(rows@, start as int, acc + phase1_rows(s0.take(i as int), *cfg, turn), turn, now@),
            start + acc.len() + phase1_rows(s0, *cfg, turn).len() <= u64::MAX,
            tick_fits(s0, *cfg, turn),
            snap.turn_counter == old(snap).turn_counter,
            snap.next_txn_id == old(snap).next_txn_id,
            snap.next_escrow_id == old(snap).next_escrow_id,
            snap.next_bounty_id == old(snap).next_bounty_id,
        decreases n - i,
    {
        proof {
            lemma_phase1_take(s0, i as int, *cfg, turn);
            lemma_phase1_mono(s0, i + 1, *cfg, turn);
            assert(snap.seats@[i as int] == s0[i as int]);
            assert(interest_fits(s0[i as int].1.items, cfg.interest_min_held_copper, cfg.interest_per_10_copper_held));
            assert(release_fits(after_interest(s0[i as int].1, *cfg), mature_items(s0[i as int].1.items, turn)));
        }
        let ghost before = snap.seats@;
        let (label, mut e) = snap.seats.take_at(i);
        tick_seat_exec(&mut e, label.as_str(), cfg, turn, now, start, rows, Ghost(acc + phase1_rows(s0.take(i as int), *cfg, turn)));
        snap.seats.put_at(i, e);
        proof {
            assert(acc + phase1_rows(s0.take(i as int), *cfg, turn) + seat_tick_rows(s0[i as int].0, s0[i as int].1, *cfg, turn)
                =~= acc + phase1_rows(s0.take(i + 1), *cfg, turn));
            assert forall|j: int| 0 <= j < i + 1 implies #[trigger] snap.seats@[j] == (s0[j].0, tick_seat(s0[j].1, *cfg, turn)) by {
                if j < i {
                    assert(snap.seats@[j] == before[j]);
                }
            }
            assert forall|j: int| i + 1 <= j < n implies #[trigger] snap.seats@[j] == s0[j] by {
                assert(snap.seats@[j] == before[j]);
            }
        }
        i = i + 1;
    }
    proof {
        assert(s0.take(n as int) =~= s0);
        assert(snap.seats@ =~= phase1_seats(s0, *cfg, turn));
    }
}

/// The decay tax of one seat.
fn decay_seat_exec(
    e: &mut SeatBalance,
    label: &str,
    cfg: &EconomySettings,
    turn: u64,
    now: &str,
    start: u64,
    rows: &mut Vec<LedgerRow>,
    Ghost(acc): Ghost<Seq<TickRow>>,
)
    requires
        rows_match(old(rows)@, start as int, acc, turn, now@),
        start + acc.len() + decay_rows(label@, old(e)@, *cfg, turn).len() <= u64::MAX,
        decay_fits(
            old(e).balance as int,
            cfg.decay_floor_copper as int,
            cfg.decay_copper_pct_per_turn_tenths as int,
            cfg.decay_silver_pct_per_turn_tenths as int,
        ),
    ensures
        final(e)@ == decay_seat(old(e)@, *cfg),
        rows_match(final(rows)@, start as int, acc + decay_rows(label@, old(e)@, *cfg, turn), turn, now@),
{
    let ghost e0 = e@;
    let pre = e.balance;
    let (c, s) = decay_split(pre, cfg);
    let ghost first = if c > 0 {
        seq![
            TickRow {
                txn: "decay"@,
                seat: label@,
                amount: -c,
                reason: copper_decay_reason(turn, copper_bucket(pre as int)),
                ref_msg: None,
                balance_after: decay_first(e0, *cfg),
                escrow_id: None,
                kind: Some(ActionKind::Decay),
            },
        ]
    } else {
        Seq::<TickRow>::empty()
    };
    if c > 0 {
        let d = copper_to_display(pre);
        e.balance = sat_sub(e.balance, c);
        let reason = decay_text("copper decay @turn ", turn, " (1.0% of ", d.copper, "c bucket)");
        push_row(rows, start, "decay", label, -c, reason, None, e.balance, None, Some(ActionKind::Decay), turn, now, Ghost(acc));
        assert(acc + first =~= acc.push(first[0]));
    } else {
        assert(acc + first =~= acc);
    }
    if s > 0 {
        let d = copper_to_display(pre);
        e.balance = sat_sub(e.balance, s);
        let reason = decay_text("silver decay @turn ", turn, " (0.5% of ", d.silver, "s bucket)");
        push_row(rows, start, "decay", label, -s, reason, None, e.balance, None, Some(ActionKind::Decay), turn, now, Ghost(acc + first));
    }
    proof {
        assert(acc + decay_rows(label@, e0, *cfg, turn) =~= if s > 0 {
            (acc + first).push(decay_rows(label@, e0, *cfg, turn)[first.len() as int])
        } else {
            acc + first
        });
    }
}

/// The decay tax for every seat, in table order.
fn tick_phase2(
    snap: &mut BalancesSnapshot,
    cfg: &EconomySettings,
    turn: u64,
    now: &str,
    start: u64,
    rows: &mut Vec<LedgerRow>,
    Ghost(acc): Ghost<Seq<TickRow>>,
)
    requires
        rows_match(old(rows)@, start as int, acc, turn, now@),
        start + acc.len() + phase2_rows(old(snap).seats@, *cfg, turn).len() <= u64::MAX,
        forall|i: int|
            0 <= i < old(snap).seats@.len() ==> decay_fits(
                (#[trigger] old(snap).seats@[i]).1.balance as int,
                cfg.decay_floor_copper as int,
                cfg.decay_copper_pct_per_turn_tenths as int,
                cfg.decay_silver_pct_per_turn_tenths as int,
            ),
    ensures
        final(snap).seats@ == phase2_seats(old(snap).seats@, *cfg),
        rows_match(final(rows)@, start as int, acc + phase2_rows(old(snap).seats@, *cfg, turn), turn, now@),
        final(snap).turn_counter == old(snap).turn_counter,
        final(snap).next_txn_id == old(snap).next_txn_id,
        final(snap).next_escrow_id == old(snap).next_escrow_id,
        final(snap).next_bounty_id == old(snap).next_bounty_id,
{
    let ghost s0 = snap.seats@;
    let n = snap.seats.len();
    let mut i: usize = 0;
    assert(s0.take(0) =~= Seq::<(Seq<char>, SeatModel)>::empty());
    assert(acc + phase2_rows(s0.take(0), *cfg, turn) =~= acc);
    while i < n
        invariant
            i <= n,
            n == s0.len(),
            snap.seats@.len() == n,
            forall|j: int| 0 <= j < i ==> #[trigger] snap.seats@[j] == (s0[j].0, decay_seat(s0[j].1, *cfg)),
            forall|j: int| i <= j < n ==> #[trigger] snap.seats@[j] == s0[j],
            rows_match(rows@, start as int, acc + phase2_rows(s0.take(i as int), *cfg, turn), turn, now@),
            start + acc.len() + phase2_rows(s0, *cfg, turn).len() <= u64::MAX,
            forall|j: int|
                0 <= j < s0.len() ==> decay_fits(
                    (#[trigger] s0[j]).1.balance as int,
                    cfg.decay_floor_copper as int,
                    cfg.decay_copper_pct_per_turn_tenths as int,
                    cfg.decay_silver_pct_per_turn_tenths as int,
                ),
            snap.turn_counter == old(snap).turn_counter,
            snap.next_txn_id == old(snap).next_txn_id,
            snap.next_escrow_id == old(snap).next_escrow_id,
            snap.next_bounty_id == old(snap).next_bounty_id,
        decreases n - i,
    {
        proof {
            lemma_phase2_take(s0, i as int, *cfg, turn);
            lemma_phase2_mono(s0, i + 1, *cfg, turn);
            assert(snap.seats@[i as int] == s0[i as int]);
        }
        let ghost before = snap.seats@;
        let (label, mut e) = snap.seats.take_at(i);
        decay_seat_exec(&mut e, label.as_str(), cfg, turn, now, start, rows, Ghost(acc + phase2_rows(s0.take(i as int), *cfg, turn)));
        snap.seats.put_at(i, e);
        proof {
            assert(acc + phase2_rows(s0.take(i as int), *cfg, turn) + decay_rows(s0[i as int].0, s0[i as int].1, *cfg, turn)
                =~= acc + phase2_rows(s0.take(i + 1), *cfg, turn));
            assert forall|j: int| 0 <= j < i + 1 implies #[trigger] snap.seats@[j] == (s0[j].0, decay_seat(s0[j].1, *cfg)) by {
                if j < i {
                    assert(snap.seats@[j] == before[j]);
                }
            }
            assert forall|j: int| i + 1 <= j < n implies #[trigger] snap.seats@[j] == s0[j] by {
                assert(snap.seats@[j] == before[j]);
            }
        }
        i = i + 1;
    }
    proof {
        assert(s0.take(n as int) =~= s0);
        assert(snap.seats@ =~= phase2_seats(s0, *cfg));
    }
}

/// The passive income of one active seat.
fn passive_exec(
    snap: &mut BalancesSnapshot,
    seat: &str,
    cfg: &EconomySettings,
    turn: u64,
    now: &str,
    start: u64,
    rows: &mut Vec<LedgerRow>,
    Ghost(acc): Ghost<Seq<TickRow>>,
)
    requires
        rows_match(old(rows)@, start as int, acc, turn, now@),
        start + acc.len() + passive_step(old(snap).seats@, seat@, *cfg, turn).1.len() <= u64::MAX,
    ensures
        final(snap).seats@ == passive_step(old(snap).seats@, seat@, *cfg, turn).0,
        rows_match(final(rows)@, start as int, acc + passive_step(old(snap).seats@, seat@, *cfg, turn).1, turn, now@),
        final(snap).turn_counter == old(snap).turn_counter,
        final(snap).next_txn_id == old(snap).next_txn_id,
        final(snap).next_escrow_id == old(snap).next_escrow_id,
        final(snap).next_bounty_id == old(snap).next_bounty_id,
{
    let ghost s0 = snap.seats@;
    snap.seats.labels_are_distinct();
    let fresh = !snap.seats.contains_key(seat);
    let start_bal = cfg.starting_balance_copper;
    let mut e = take_or_start(snap, seat, start_bal);
    let ghost step = passive_step(s0, seat@, *cfg, turn);
    let ghost join = if fresh {
        seq![
            TickRow {
                txn: "init"@,
                seat: seat@,
                amount: start_bal as int,
                reason: join_reason(),
                ref_msg: None,
                balance_after: start_bal as int,
                escrow_id: None,
                kind: Some(ActionKind::Init),
            },
        ]
    } else {
        Seq::<TickRow>::empty()
    };
    if fresh {
        let reason = crate::currency::owned_str("join: initial balance (passive tick)");
        push_row(rows, start, "init", seat, start_bal, reason, None, start_bal, None, Some(ActionKind::Init), turn, now, Ghost(acc));
        assert(acc + join =~= acc.push(join[0]));
    } else {
        assert(acc + join =~= acc);
    }
    e.balance = sat_add(e.balance, cfg.passive_per_tick_copper);
    let bal = e.balance;
    let ghost e2 = e@;
    put_back(snap, seat, e);
    proof {
        lemma_seat_put_twice(s0, seat@, crate::currency::empty_seat(), e2);
    }
    let reason = turn_text("passive rotation tick @turn ", turn);
    push_row(rows, start, "passive", seat, cfg.passive_per_tick_copper, reason, None, bal, None, None, turn, now, Ghost(acc + join));
    proof {
        assert(acc + step.1 =~= (acc + join).push(step.1[join.len() as int]));
    }
}

/// Passive income for every active seat, in the order given.
fn tick_phase3(
    snap: &mut BalancesSnapshot,
    active_seats: &Vec<String>,
    cfg: &EconomySettings,
    turn: u64,
    now: &str,
    start: u64,
    rows: &mut Vec<LedgerRow>,
    Ghost(acc): Ghost<Seq<TickRow>>,
)
    requires
        rows_match(old(rows)@, start as int, acc, turn, now@),
        start + acc.len() + phase3(old(snap).seats@, text_seq(active_seats@), *cfg, turn).1.len() <= u64::MAX,
    ensures
        final(snap).seats@ == phase3(old(snap).seats@, text_seq(active_seats@), *cfg, turn).0,
        rows_match(final(rows)@, start as int, acc + phase3(old(snap).seats@, text_seq(active_seats@), *cfg, turn).1, turn, now@),
        final(snap).turn_counter == old(snap).turn_counter,
        final(snap).next_txn_id == old(snap).next_txn_id,
        final(snap).next_escrow_id == old(snap).next_escrow_id,
        final(snap).next_bounty_id == old(snap).next_bounty_id,
{
    let ghost s0 = snap.seats@;
    let ghost a = text_seq(active_seats@);
    let mut j: usize = 0;
    assert(a.take(0) =~= Seq::<Seq<char>>::empty());
    assert(acc + phase3(s0, a.take(0), *cfg, turn).1 =~= acc);
    while j < active_seats.len()
        invariant
            j <= active_seats.len(),
            a == text_seq(active_seats@),
            snap.seats@ == phase3(s0, a.take(j as int), *cfg, turn).0,
            rows_match(rows@, start as int, acc + phase3(s0, a.take(j as int), *cfg, turn).1, turn, now@),
            start + acc.len() + phase3(s0, a, *cfg, turn).1.len() <= u64::MAX,
            snap.turn_counter == old(snap).turn_counter,
            snap.next_txn_id == old(snap).next_txn_id,
            snap.next_escrow_id == old(snap).next_escrow_id,
            snap.next_bounty_id == old(snap).next_bounty_id,
        decreases active_seats.len() - j,
    {
        proof {
            lemma_phase3_take(s0, a, j as int, *cfg, turn);
            lemma_phase3_mono(s0, a, j + 1, *cfg, turn);
            assert(a[j as int] == active_seats@[j as int]@);
        }
        let ghost p = phase3(s0, a.take(j as int), *cfg, turn);
        passive_exec(snap, active_seats[j].as_str(), cfg, turn, now, start, rows, Ghost(acc + p.1));
        proof {
            let q = passive_step(p.0, a[j as int], *cfg, turn);
            assert(acc + p.1 + q.1 =~= acc + (p.1 + q.1));
        }
        j = j + 1;
    }
    assert(a.take(active_seats.len() as int) =~= a);
}

/// One currency tick on the snapshot. The turn advances (saturating);
/// then, for every seat in table order, its interest (when positive) and its
/// matured escrow items; then, for every seat, the decay tax; then, on a
/// mic-advance tick only, the passive income of every active seat in the
/// order given (a seat with no balance joins at the starting balance first).
/// Returns the ledger rows, numbered from `next_txn_id`, which advances past
/// them; every row carries the new turn and `now`.
pub fn process_tick(
    snap: &mut BalancesSnapshot,
    settings: &EconomySettings,
    on_mic_advance: bool,
    active_seats: &Vec<String>,
    now: &str,
) -> (rows: Vec<LedgerRow>)
    requires
        tick_fits(old(snap).seats@, *settings, next_turn(old(snap).turn_counter)),
        old(snap).next_txn_id + tick_result(
            old(snap).seats@,
            *settings,
            on_mic_advance,
            text_seq(active_seats@),
            next_turn(old(snap).turn_counter),
        ).1.len() <= u64::MAX,
    ensures
        ({
            let turn = next_turn(old(snap).turn_counter);
            let (seats, trows) = tick_result(old(snap).seats@, *settings, on_mic_advance, text_seq(active_seats@), turn);
            &&& final(snap).turn_counter == turn
            &&& final(snap).seats@ == seats
            &&& rows_match(rows@, old(snap).next_txn_id as int, trows, turn, now@)
            &&& final(snap).next_txn_id == old(snap).next_txn_id + trows.len()
            &&& final(snap).next_escrow_id == old(snap).next_escrow_id
            &&& final(snap).next_bounty_id == old(snap).next_bounty_id
        }),
{
    let t = snap.turn_counter;
    snap.turn_counter = if t == u64::MAX {
        t
    } else {
        t + 1
    };
    let turn = snap.turn_counter;
    let start = snap.next_txn_id;
    let ghost s0 = snap.seats@;
    let ghost s1 = phase1_seats(s0, *settings, turn);
    let ghost r1 = phase1_rows(s0, *settings, turn);
    let ghost r2 = phase2_rows(s1, *settings, turn);
    let mut rows: Vec<LedgerRow> = Vec::new();
    assert(Seq::<TickRow>::empty() + r1 =~= r1);
    tick_phase1(snap, settings, turn, now, start, &mut rows, Ghost(Seq::empty()));
    proof {
        assert forall|i: int| 0 <= i < s1.len() implies decay_fits(
            (#[trigger] s1[i]).1.balance as int,
            settings.decay_floor_copper as int,
            settings.decay_copper_pct_per_turn_tenths as int,
            settings.decay_silver_pct_per_turn_tenths as int,
        ) by {
            assert(s1[i].1 == tick_seat(s0[i].1, *settings, turn));
        }
    }
    tick_phase2(snap, settings, turn, now, start, &mut rows, Ghost(r1));
    if on_mic_advance {
        tick_phase3(snap, active_seats, settings, turn, now, start, &mut rows, Ghost(r1 + r2));
    }
    snap.next_txn_id = start + rows.len() as u64;
    rows
}

// ---------------------------------------------------------------------------
// Laws
// ---------------------------------------------------------------------------

/// No row joins a seat or pays passive income.
pub open spec fn no_passive_rows(r: Seq<TickRow>) -> bool {
    forall|j: int| 0 <= j < r.len() ==> (#[trigger] r[j]).txn != "passive"@ && r[j].txn != "init"@
}

proof fn lemma_no_passive_concat(a: Seq<TickRow>, b: Seq<TickRow>)
    requires
        no_passive_rows(a),
        no_passive_rows(b),
    ensures
        no_passive_rows(a + b),
{
    assert forall|j: int| 0 <= j < (a + b).len() implies (#[trigger] (a + b)[j]).txn != "passive"@ && (a + b)[j].txn
        != "init"@ by {
        if j < a.len() {
            assert((a + b)[j] == a[j]);
        } else {
            assert((a + b)[j] == b[j - a.len()]);
        }
    }
}

proof fn lemma_kinds_differ()
    ensures
        "credit"@ != "passive"@ && "credit"@ != "init"@,
        "escrow_release"@ != "passive"@ && "escrow_release"@ != "init"@,
        "interest"@ != "passive"@ && "interest"@ != "init"@,
        "decay"@ != "passive"@ && "decay"@ != "init"@,
{
    reveal_strlit("passive");
    reveal_strlit("init");
    reveal_strlit("credit");
    reveal_strlit("escrow_release");
    reveal_strlit("interest");
    reveal_strlit("decay");
    assert("passive"@.len() == 7);
    assert("init"@.len() == 4);
    assert("credit"@.len() == 6);
    assert("escrow_release"@.len() == 14);
    assert("interest"@.len() == 8);
    assert("decay"@.len() == 5);
}

proof fn lemma_release_rows_kinds(k: Seq<char>, e: SeatModel, m: Seq<EscrowItem>, turn: u64)
    ensures
        no_passive_rows(release_rows(k, e, m, turn)),
    decreases m.len(),
{
    lemma_kinds_differ();
    if m.len() > 0 {
        lemma_release_rows_kinds(k, e, m.drop_last(), turn);
        let r = release_rows(k, e, m, turn);
        let p = release_rows(k, e, m.drop_last(), turn);
        assert(r.len() == p.len() + 2);
        assert forall|j: int| 0 <= j < r.len() implies (#[trigger] r[j]).txn != "passive"@ && r[j].txn != "init"@ by {
            if j < p.len() {
                assert(r[j] == p[j]);
            } else if j == p.len() {
                assert(r[j].txn == "credit"@);
            } else {
                assert(r[j].txn == "escrow_release"@);
            }
        }
    }
}

proof fn lemma_phase1_kinds(s: SeatSeq, cfg: EconomySettings, turn: u64)
    ensures
        no_passive_rows(phase1_rows(s, cfg, turn)),
    decreases s.len(),
{
    lemma_kinds_differ();
    if s.len() > 0 {
        lemma_phase1_kinds(s.drop_last(), cfg, turn);
        let (k, e) = s.last();
        let ir = interest_rows(k, e, cfg, turn);
        assert(no_passive_rows(ir)) by {
            if ir.len() > 0 {
                assert(ir[0].txn == "interest"@);
            }
        }
        lemma_release_rows_kinds(k, after_interest(e, cfg), mature_items(e.items, turn), turn);
        lemma_no_passive_concat(ir, release_rows(k, after_interest(e, cfg), mature_items(e.items, turn), turn));
        lemma_no_passive_concat(phase1_rows(s.drop_last(), cfg, turn), seat_tick_rows(k, e, cfg, turn));
    }
}

proof fn lemma_decay_rows_kinds(k: Seq<char>, e: SeatModel, cfg: EconomySettings, turn: u64)
    ensures
        no_passive_rows(decay_rows(k, e, cfg, turn)),
{
    lemma_kinds_differ();
    let r = decay_rows(k, e, cfg, turn);
    assert forall|j: int| 0 <= j < r.len() implies (#[trigger] r[j]).txn != "passive"@ && r[j].txn != "init"@ by {
        assert(r[j].txn == "decay"@);
    }
}

proof fn lemma_phase2_kinds(s: SeatSeq, cfg: EconomySettings, turn: u64)
    ensures
        no_passive_rows(phase2_rows(s, cfg, turn)),
    decreases s.len(),
{
    if s.len() > 0 {
        lemma_phase2_kinds(s.drop_last(), cfg, turn);
        let (k, e) = s.last();
        lemma_decay_rows_kinds(k, e, cfg, turn);
        lemma_no_passive_concat(phase2_rows(s.drop_last(), cfg, turn), decay_rows(k, e, cfg, turn));
    }
}

/// Passive income (and the joining of new seats) happens on mic-advance
/// ticks only: any other tick keeps the table's seats, in order, and
/// writes no `passive` or `init` row.
pub proof fn law_passive_only_on_mic_advance(
    s: SeatSeq,
    cfg: EconomySettings,
    active: Seq<Seq<char>>,
    turn: u64,
)
    ensures
        ({
            let (s2, r) = tick_result(s, cfg, false, active, turn);
            &&& s2.len() == s.len()
            &&& forall|i: int| 0 <= i < s.len() ==> (#[trigger] s2[i]).0 == s[i].0
            &&& no_passive_rows(r)
        }),
{
    lemma_phase1_kinds(s, cfg, turn);
    lemma_phase2_kinds(phase1_seats(s, cfg, turn), cfg, turn);
    lemma_no_passive_concat(phase1_rows(s, cfg, turn), phase2_rows(phase1_seats(s, cfg, turn), cfg, turn));
}

proof fn lemma_phase3_present(s: SeatSeq, a: Seq<Seq<char>>, cfg: EconomySettings, turn: u64)
    requires
        seats_distinct(s),
    ensures
        seats_distinct(phase3(s, a, cfg, turn).0),
        forall|k: Seq<char>| seat_lookup(s, k) is Some ==> (#[trigger] seat_lookup(phase3(s, a, cfg, turn).0, k)) is Some,
        forall|j: int| 0 <= j < a.len() ==> (#[trigger] seat_lookup(phase3(s, a, cfg, turn).0, a[j])) is Some,
    decreases a.len(),
{
    if a.len() > 0 {
        lemma_phase3_present(s, a.drop_last(), cfg, turn);
        let s1 = phase3(s, a.drop_last(), cfg, turn).0;
        let k = a.last();
        let e2 = credit(seat_or_start(s1, k, cfg.starting_balance_copper), cfg.passive_per_tick_copper as int);
        lemma_seat_put(s1, k, e2);
        assert forall|k2: Seq<char>| seat_lookup(s, k2) is Some implies (#[trigger] seat_lookup(
            phase3(s, a, cfg, turn).0,
            k2,
        )) is Some by {
            assert(seat_lookup(s1, k2) is Some);
        }
        assert forall|j: int| 0 <= j < a.len() implies (#[trigger] seat_lookup(phase3(s, a, cfg, turn).0, a[j])) is Some by {
            if j < a.len() - 1 {
                assert(a[j] == a.drop_last()[j]);
                assert(seat_lookup(s1, a[j]) is Some);
            }
        }
    }
}

/// After a mic-advance tick every active seat holds a balance (a seat seen
/// for the first time joins at the starting balance), and every seat that
/// held one still does.
pub proof fn law_active_seats_hold_balances(
    s: SeatSeq,
    cfg: EconomySettings,
    active: Seq<Seq<char>>,
    turn: u64,
)
    requires
        seats_distinct(s),
    ensures
        ({
            let s2 = tick_result(s, cfg, true, active, turn).0;
            &&& forall|j: int| 0 <= j < active.len() ==> (#[trigger] seat_lookup(s2, active[j])) is Some
            &&& forall|k: Seq<char>| seat_lookup(s, k) is Some ==> (#[trigger] seat_lookup(s2, k)) is Some
        }),
{
    let s1 = phase1_seats(s, cfg, turn);
    let sd = phase2_seats(s1, cfg);
    assert(seats_distinct(sd));
    assert forall|k: Seq<char>| seat_lookup(s, k) is Some implies seat_lookup(sd, k) is Some by {
        crate::currency::lemma_seat_index(s, k);
        let i = crate::currency::seat_index(s, k);
        assert(sd[i].0 == k);
        crate::currency::lemma_seat_index_unique(sd, k, i);
    }
    lemma_phase3_present(sd, active, cfg, turn);
}

} // verus!
