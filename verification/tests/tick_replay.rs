use vaak_core::currency::{apply_row, replay_balances_from_ledger, BalancesSnapshot, EconomySettings, LedgerRow};
use vaak_core::tick::process_tick;
use vaak_core::timefmt::{millis_or_epoch, secs_or_epoch};

fn row(id: u64, t: &str, seat: &str, amount: i64) -> LedgerRow {
    LedgerRow { id, txn_type: t.to_string(), seat: seat.to_string(), amount, ..Default::default() }
}

#[test]
fn decay_never_trips_the_time_out() {
    let mut snap = BalancesSnapshot::default();
    apply_row(&mut snap, &row(1, "init", "a:0", 0)).unwrap();
    apply_row(&mut snap, &row(2, "decay", "a:0", -1500)).unwrap();
    let a = snap.seats.get("a:0").unwrap();
    assert_eq!(a.balance, -1500);
    assert!(!a.timed_out);
    apply_row(&mut snap, &row(3, "penalty", "a:0", -1)).unwrap();
    assert!(snap.seats.get("a:0").unwrap().timed_out);
}

#[test]
fn tick_rows_replay_to_the_ticked_snapshot() {
    let mut ledger = vec![
        row(1, "init", "a:0", 250),
        LedgerRow {
            id: 2,
            txn_type: "escrow_hold".to_string(),
            seat: "a:0".to_string(),
            amount: 100,
            escrow_id: Some("e1".to_string()),
            release_turn: Some(1),
            reason: "speak".to_string(),
            ..Default::default()
        },
        LedgerRow {
            id: 3,
            txn_type: "escrow_hold".to_string(),
            seat: "a:0".to_string(),
            amount: 40,
            escrow_id: Some("e2".to_string()),
            release_turn: Some(9),
            reason: "edit".to_string(),
            ..Default::default()
        },
        row(4, "init", "b:0", 5000),
        row(5, "init", "d:0", -2000),
    ];
    let mut snap = replay_balances_from_ledger(&ledger).unwrap();
    let mut settings = EconomySettings::default();
    settings.interest_per_10_copper_held = 2;
    let active = vec!["a:0".to_string(), "c:0".to_string(), "d:0".to_string()];
    let rows = process_tick(&mut snap, &settings, true, &active, "T");
    ledger.extend(rows);
    let again = replay_balances_from_ledger(&ledger).unwrap();
    for k in ["a:0", "b:0", "c:0", "d:0"] {
        let x = snap.seats.get(k).unwrap();
        let y = again.seats.get(k).unwrap();
        assert_eq!(
            (x.balance, x.escrow_held, x.escrow_items.len(), x.timed_out),
            (y.balance, y.escrow_held, y.escrow_items.len(), y.timed_out),
            "{}",
            k
        );
    }
    assert_eq!(snap.seats.get("a:0").unwrap().escrow_items[0].id, "e2");
}

#[test]
fn clock_readings_before_the_epoch_read_as_zero() {
    assert_eq!(secs_or_epoch(Some(1_776_386_657)), 1_776_386_657);
    assert_eq!(secs_or_epoch(None), 0);
    assert_eq!(millis_or_epoch(Some(1_776_386_657_123)), 1_776_386_657_123);
    assert_eq!(millis_or_epoch(Some((1u128 << 64) + 5)), 5);
    assert_eq!(millis_or_epoch(None), 0);
}

#[test]
fn unknown_method_error_code() {
    let (code, message) = vaak_core::mcp::method_not_found_error("tools/frobnicate");
    assert_eq!(code, -32601);
    assert_eq!(message, "Method not found: tools/frobnicate");
    assert_eq!(vaak_core::mcp::PARSE_ERROR_CODE, -32700);
}
