use vaak_core::currency::{
    emit_coliability_penalties, emit_retro_pass_penalties, ActionKind, BalancesSnapshot, EconomySettings, LedgerRow,
    SeatBalance,
};

fn seat(balance: i64) -> SeatBalance {
    SeatBalance { balance, escrow_held: 0, escrow_items: Vec::new(), timed_out: false, system_dispute_ban_until: None }
}

fn row(seat: &str, kind: ActionKind, ref_msg: Option<u64>, turn: Option<u64>) -> LedgerRow {
    LedgerRow {
        id: 0,
        txn_type: "x".to_string(),
        seat: seat.to_string(),
        amount: 0,
        reason: String::new(),
        ref_msg,
        turn,
        action_kind: Some(kind),
        ..Default::default()
    }
}

#[test]
fn retro_pass_penalties_cover_the_window_before_the_speak() {
    let ledger = vec![
        row("evil:0", ActionKind::Pass, Some(1), Some(7)),
        row("evil:0", ActionKind::Pass, Some(2), Some(8)),
        row("evil:0", ActionKind::Pass, None, Some(15)),
        row("evil:0", ActionKind::Pass, Some(3), None),
        row("other:0", ActionKind::Pass, Some(4), Some(16)),
        row("evil:0", ActionKind::Pass, Some(5), Some(19)),
        row("evil:0", ActionKind::Speak, Some(50), Some(20)),
        row("evil:0", ActionKind::Pass, Some(6), Some(20)),
    ];
    let mut snap = BalancesSnapshot::default();
    snap.turn_counter = 25;
    snap.next_txn_id = 40;
    snap.seats.insert("evil:0".to_string(), seat(100));
    let settings = EconomySettings::default();

    let none = emit_retro_pass_penalties(&mut snap, &ledger, &settings, false, "evil:0", 50, "disp_000001", "T");
    assert!(none.is_empty());
    assert_eq!(snap.next_txn_id, 40);

    let rows = emit_retro_pass_penalties(&mut snap, &ledger, &settings, true, "evil:0", 50, "disp_000001", "T");
    let got: Vec<(u64, i64, i64, Option<u64>)> = rows.iter().map(|r| (r.id, r.amount, r.balance_after, r.ref_msg)).collect();
    assert_eq!(got, vec![(40, -3, 97, Some(2)), (41, -3, 94, Some(50)), (42, -3, 91, Some(5))]);
    assert!(rows.iter().all(|r| r.txn_type == "penalty"
        && r.reason == "adversarial pass (retro from disp_000001)"
        && r.turn == Some(25)
        && r.action_kind == Some(ActionKind::Penalty)));
    assert_eq!(snap.seats.get("evil:0").unwrap().balance, 91);
    assert_eq!(snap.next_txn_id, 43);

    let unknown_msg = emit_retro_pass_penalties(&mut snap, &ledger, &settings, true, "evil:0", 99, "d", "T");
    assert!(unknown_msg.is_empty());
}

#[test]
fn coliability_hits_each_certifying_tester_once() {
    let mut t1a = row("t1:0", ActionKind::Test, Some(70), Some(3));
    t1a.linked_edit_msg = Some(60);
    let t1b = LedgerRow { ref_msg: Some(71), ..t1a.clone() };
    let mut t2 = row("t2:0", ActionKind::Test, Some(72), Some(3));
    t2.linked_edit_msg = Some(60);
    let mut t3 = row("t3:0", ActionKind::Test, Some(73), Some(3));
    t3.linked_edit_msg = Some(61);
    let ledger = vec![row("dev:0", ActionKind::Edit, Some(60), Some(2)), t1a, t1b, t2, t3];
    let mut snap = BalancesSnapshot::default();
    snap.seats.insert("t1:0".to_string(), seat(100));
    let settings = EconomySettings::default();

    let rows = emit_coliability_penalties(&mut snap, &ledger, &settings, "dev:0", 60, "T");
    let got: Vec<(&str, i64, i64)> = rows.iter().map(|r| (r.seat.as_str(), r.amount, r.balance_after)).collect();
    assert_eq!(got, vec![("t1:0", -15, 85), ("t2:0", -15, 485)]);
    assert!(rows.iter().all(|r| r.reason == "co-liability — tested bad edit msg #60"
        && r.ref_msg == Some(60)
        && r.linked_edit_msg == Some(60)));
    assert_eq!(snap.seats.get("t2:0").unwrap().balance, 485);

    let not_edit = emit_coliability_penalties(&mut snap, &ledger, &settings, "dev:0", 61, "T");
    assert!(not_edit.is_empty());
}
