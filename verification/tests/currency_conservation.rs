use vaak_core::currency::{
    apply_row, BalancesSnapshot, EscrowItem, LedgerRow, SeatBalance, SPEAK_EARN_COPPER,
    SPEAK_ESCROW_TICKS, STARTING_BALANCE_COPPER,
};

/// Sum of every seat's balance and held escrow.
fn total_system_copper(snap: &BalancesSnapshot) -> i64 {
    let mut total = 0;
    for i in 0..snap.seats.len() {
        let (_, s) = snap.seats.entry_at(i);
        total += s.balance + s.escrow_held;
    }
    total
}

fn ledger_row(id: u64, txn_type: &str, seat: &str, amount: i64) -> LedgerRow {
    LedgerRow {
        id,
        txn_type: txn_type.to_string(),
        seat: seat.to_string(),
        amount,
        reason: String::new(),
        balance_after: 0,
        ..Default::default()
    }
}

#[test]
fn t_conservation_init_mints() {
    let mut snap = BalancesSnapshot::default();
    assert_eq!(total_system_copper(&snap), 0);
    let row = ledger_row(1, "init", "a:0", STARTING_BALANCE_COPPER);
    apply_row(&mut snap, &row).unwrap();
    assert_eq!(total_system_copper(&snap), STARTING_BALANCE_COPPER);
}

#[test]
fn t_conservation_speak_escrow_lifecycle_full_cycle() {
    // SPEAK lifecycle apply_row effects:
    //   escrow_hold: balance unchanged, escrow_held += |amount| → system +N
    //   credit:      balance += amount                          → system +N
    //   escrow_release: escrow_held -= amount                   → system -N
    // Net per Speak: system gains exactly SPEAK_EARN_COPPER. The
    // earn-net should equal the constant the spec promises.
    let mut snap = BalancesSnapshot::default();
    snap.seats.insert("a:0".to_string(), SeatBalance::default());
    let baseline = total_system_copper(&snap);
    let n = SPEAK_EARN_COPPER;

    // escrow_hold: amount stored negative, escrow_held += abs(amount)
    let hold = LedgerRow {
        id: 1,
        txn_type: "escrow_hold".to_string(),
        seat: "a:0".to_string(),
        amount: -n,
        escrow_id: Some("e1".to_string()),
        release_turn: Some(SPEAK_ESCROW_TICKS),
        ..Default::default()
    };
    apply_row(&mut snap, &hold).unwrap();
    assert_eq!(total_system_copper(&snap), baseline + n);

    // credit: balance += amount
    let credit = ledger_row(2, "credit", "a:0", n);
    apply_row(&mut snap, &credit).unwrap();
    assert_eq!(total_system_copper(&snap), baseline + 2 * n);

    // escrow_release: escrow_held -= amount
    let release = LedgerRow {
        id: 3,
        txn_type: "escrow_release".to_string(),
        seat: "a:0".to_string(),
        amount: n,
        escrow_id: Some("e1".to_string()),
        ..Default::default()
    };
    apply_row(&mut snap, &release).unwrap();
    assert_eq!(total_system_copper(&snap), baseline + n);
}

#[test]
fn t_conservation_penalty_destroys() {
    let mut snap = BalancesSnapshot::default();
    snap.seats.insert("a:0".to_string(), SeatBalance { balance: 1000, ..SeatBalance::default() });
    let baseline = total_system_copper(&snap);
    let row = ledger_row(1, "penalty", "a:0", -50);
    apply_row(&mut snap, &row).unwrap();
    assert_eq!(total_system_copper(&snap), baseline - 50);
}

#[test]
fn t_conservation_pool_destroyed_is_audit_only() {
    // pool_destroyed rows are audit markers — they MUST NOT mutate
    // real-seat balances. Regression guard: if a future apply_row
    // arm accidentally adds the amount to system:pool's balance, the
    // total-system invariant would falsely shrink even though no
    // real seat lost copper.
    let mut snap = BalancesSnapshot::default();
    snap.seats.insert("a:0".to_string(), SeatBalance { balance: 1000, ..SeatBalance::default() });
    let baseline = total_system_copper(&snap);

    let row = LedgerRow {
        id: 1,
        txn_type: "pool_destroyed".to_string(),
        seat: "system:pool".to_string(),
        amount: -100,
        ..Default::default()
    };
    apply_row(&mut snap, &row).unwrap();
    assert_eq!(snap.seats.get("a:0").unwrap().balance, 1000);
    // system:pool seat entry exists with balance 0; conservation
    // unchanged because no real flow happened.
    assert_eq!(total_system_copper(&snap), baseline);
}

#[test]
fn t_conservation_human_adjust_credit_and_debit() {
    // Human msg 458 — human-issued credits and debits flow through
    // apply_row as plain balance mutations. Conservation tracks them
    // as external-pool flows in either direction.
    let mut snap = BalancesSnapshot::default();
    snap.seats.insert("a:0".to_string(), SeatBalance { balance: 500, ..SeatBalance::default() });
    let baseline = total_system_copper(&snap);

    apply_row(&mut snap, &ledger_row(1, "human_adjust", "a:0", 1000)).unwrap();
    assert_eq!(total_system_copper(&snap), baseline + 1000);

    apply_row(&mut snap, &ledger_row(2, "human_adjust", "a:0", -300)).unwrap();
    assert_eq!(total_system_copper(&snap), baseline + 700);
}

#[test]
fn t_conservation_decay_destroys() {
    let mut snap = BalancesSnapshot::default();
    snap.seats.insert("a:0".to_string(), SeatBalance { balance: 10000, ..SeatBalance::default() });
    let baseline = total_system_copper(&snap);
    let row = ledger_row(1, "decay", "a:0", -100);
    apply_row(&mut snap, &row).unwrap();
    assert_eq!(total_system_copper(&snap), baseline - 100);
}

#[test]
fn t_conservation_multi_seat_speak_session() {
    // 3 seats each init + 1 SPEAK lifecycle. Verifies the invariant
    // composes across seats and rows — analogous to a single tick's
    // worth of live activity. Catches per-seat state leakage between
    // apply_row calls.
    let mut snap = BalancesSnapshot::default();
    let seats = ["a:0", "b:0", "c:0"];
    let mut id: u64 = 1;
    for seat in &seats {
        apply_row(&mut snap, &ledger_row(id, "init", seat, STARTING_BALANCE_COPPER)).unwrap();
        id += 1;
    }
    let after_init = total_system_copper(&snap);
    assert_eq!(after_init, STARTING_BALANCE_COPPER * seats.len() as i64);

    let n = SPEAK_EARN_COPPER;
    for (i, seat) in seats.iter().enumerate() {
        let esc = format!("esc_{:03x}", i);
        apply_row(&mut snap, &LedgerRow {
            id, txn_type: "escrow_hold".to_string(), seat: seat.to_string(),
            amount: -n, escrow_id: Some(esc.clone()), ..Default::default()
        }).unwrap();
        id += 1;
        apply_row(&mut snap, &ledger_row(id, "credit", seat, n)).unwrap();
        id += 1;
        apply_row(&mut snap, &LedgerRow {
            id, txn_type: "escrow_release".to_string(), seat: seat.to_string(),
            amount: n, escrow_id: Some(esc), ..Default::default()
        }).unwrap();
        id += 1;
    }
    // Each seat gained exactly n. Total system: 3 inits + 3 speak earns.
    assert_eq!(total_system_copper(&snap), after_init + n * seats.len() as i64);
}

#[test]
fn t_conservation_init_rejects_double() {
    // The init invariant is the foundation of the conservation
    // property: exactly ONE init per seat over the ledger's lifetime.
    // A duplicate would silently double-mint. This test enforces the
    // HARD ERROR per dev-challenger:0 msg 1080 nit #2.
    let mut snap = BalancesSnapshot::default();
    let row1 = ledger_row(1, "init", "a:0", STARTING_BALANCE_COPPER);
    apply_row(&mut snap, &row1).unwrap();
    let row2 = ledger_row(2, "init", "a:0", STARTING_BALANCE_COPPER);
    let result = apply_row(&mut snap, &row2);
    assert!(result.is_err(), "duplicate init must be HARD ERROR");
    // Even on error, snap state stays at the first init's value.
    assert_eq!(total_system_copper(&snap), STARTING_BALANCE_COPPER);
}

#[test]
fn t_conservation_bounty_stake_then_earn_full_cycle() {
    // bounty_stake debits claimant (system loses N).
    // bounty_earn later credits claimant the full payout amount.
    // For a 2000c bounty with 10% stake: stake=200, earn=2000+200=2200
    // (returns stake + bounty amount per Phase 6 spec).
    // Net seat delta = +2000 (the bounty amount).
    let mut snap = BalancesSnapshot::default();
    snap.seats.insert("a:0".to_string(), SeatBalance { balance: 1000, ..SeatBalance::default() });
    let baseline = total_system_copper(&snap);

    // bounty_stake: amount=-200 (debit)
    apply_row(&mut snap, &ledger_row(1, "bounty_stake", "a:0", -200)).unwrap();
    assert_eq!(total_system_copper(&snap), baseline - 200);

    // bounty_earn: amount=+2200 (returns stake + earn)
    apply_row(&mut snap, &ledger_row(2, "bounty_earn", "a:0", 2200)).unwrap();
    assert_eq!(total_system_copper(&snap), baseline + 2000);
}

#[test]
fn t_conservation_bounty_clawback_destroys() {
    // bounty_clawback on objection-sustained removes copper from
    // claimant's balance. Conservation: system shrinks by clawback
    // amount (offset by challenger credit + pool destroy in real
    // flow, but apply_row at the per-row level just sees the debit).
    let mut snap = BalancesSnapshot::default();
    snap.seats.insert("a:0".to_string(), SeatBalance { balance: 2200, ..SeatBalance::default() });
    let baseline = total_system_copper(&snap);

    apply_row(&mut snap, &ledger_row(1, "bounty_clawback", "a:0", -1800)).unwrap();
    assert_eq!(total_system_copper(&snap), baseline - 1800);
    assert_eq!(snap.seats.get("a:0").unwrap().balance, 400);
}

#[test]
fn t_conservation_reinstate_resets_state() {
    // Phase 2 (c) — reinstate sets balance to row.amount (0 per
    // human directive), clears timed_out + escrow_items + ban.
    // Conservation: system delta = row.amount - prior_total_for_seat.
    let mut snap = BalancesSnapshot::default();
    let mut s = SeatBalance::default();
    s.balance = -1500; // deficit
    s.timed_out = true;
    s.escrow_held = 500;
    s.escrow_items.push(EscrowItem {
        id: "e1".to_string(),
        amount: 500,
        release_turn: 10,
        action: "speak".to_string(),
        ref_msg: None,
    });
    snap.seats.insert("a:0".to_string(), s);
    let baseline = total_system_copper(&snap); // -1000

    apply_row(&mut snap, &ledger_row(1, "reinstate", "a:0", 0)).unwrap();
    let s = snap.seats.get("a:0").unwrap();
    assert_eq!(s.balance, 0);
    assert_eq!(s.escrow_held, 0);
    assert!(s.escrow_items.is_empty());
    assert!(!s.timed_out);
    // System delta: was -1000 (=-1500+500), now 0 → delta +1000.
    assert_eq!(total_system_copper(&snap), baseline + 1000);
}

#[test]
fn t_conservation_unknown_txn_type_hard_errors() {
    // Regression guard on apply_row's wildcard arm. Any
    // unrecognized txn_type MUST return Err (replay-HARD-ERROR
    // semantics). Silent-accept on unknown opcodes would let
    // future schema additions go untested.
    let mut snap = BalancesSnapshot::default();
    let row = ledger_row(1, "totally_made_up_opcode", "a:0", 100);
    let result = apply_row(&mut snap, &row);
    assert!(result.is_err(), "unknown txn_type must be HARD ERROR");
    assert_eq!(total_system_copper(&snap), 0);
}

#[test]
fn t_conservation_penalty_trips_deficit_cap() {
    // Penalty arm sets timed_out=true when balance drops to/below
    // DEFICIT_CAP_COPPER. Conservation: balance still drops by
    // exactly the penalty amount; the flag is orthogonal.
    let mut snap = BalancesSnapshot::default();
    snap.seats.insert("a:0".to_string(), SeatBalance { balance: -900, ..SeatBalance::default() });
    let baseline = total_system_copper(&snap);
    apply_row(&mut snap, &ledger_row(1, "penalty", "a:0", -200)).unwrap();
    let s = snap.seats.get("a:0").unwrap();
    assert!(s.timed_out, "deficit cap should trip timed_out flag");
    assert_eq!(s.balance, -1100);
    assert_eq!(total_system_copper(&snap), baseline - 200);
}
