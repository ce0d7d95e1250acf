use vaak_core::currency::{BalancesSnapshot, EconomySettings, EscrowItem, SeatBalance};
use vaak_core::tick::process_tick;

fn seat(balance: i64, escrow: Vec<EscrowItem>) -> SeatBalance {
    let held = escrow.iter().map(|e| e.amount).sum();
    SeatBalance { balance, escrow_held: held, escrow_items: escrow, timed_out: false, system_dispute_ban_until: None }
}

#[test]
fn tick_interest_release_decay_passive_and_lazy_init() {
    let mut snap = BalancesSnapshot::default();
    snap.next_txn_id = 5;
    snap.seats.insert(
        "a:0".to_string(),
        seat(
            250,
            vec![EscrowItem {
                id: "e1".to_string(),
                amount: 100,
                release_turn: 1,
                action: "speak".to_string(),
                ref_msg: Some(7),
            }],
        ),
    );
    snap.seats.insert("b:0".to_string(), seat(50, Vec::new()));
    let mut settings = EconomySettings::default();
    settings.interest_per_10_copper_held = 2;
    let active = vec!["a:0".to_string(), "c:0".to_string()];
    let rows = process_tick(&mut snap, &settings, true, &active, "T");

    let got: Vec<(u64, &str, &str, i64, i64, &str)> = rows
        .iter()
        .map(|r| (r.id, r.txn_type.as_str(), r.seat.as_str(), r.amount, r.balance_after, r.reason.as_str()))
        .collect();
    assert_eq!(
        got,
        vec![
            (5, "interest", "a:0", 20, 270, "escrow interest @turn 1"),
            (6, "credit", "a:0", 100, 370, "escrow release: speak settled @turn 1"),
            (7, "escrow_release", "a:0", 100, 370, "escrow matured: speak @turn 1"),
            (8, "decay", "a:0", -1, 369, "copper decay @turn 1 (1.0% of 70c bucket)"),
            (9, "decay", "a:0", -100, 269, "silver decay @turn 1 (0.5% of 3s bucket)"),
            (10, "passive", "a:0", 1, 270, "passive rotation tick @turn 1"),
            (11, "init", "c:0", 500, 500, "join: initial balance (passive tick)"),
            (12, "passive", "c:0", 1, 501, "passive rotation tick @turn 1"),
        ]
    );
    assert!(rows.iter().all(|r| r.turn == Some(1) && r.at == "T"));
    assert_eq!(rows[1].escrow_id.as_deref(), Some("e1"));
    assert_eq!(rows[1].ref_msg, Some(7));
    assert_eq!(snap.turn_counter, 1);
    assert_eq!(snap.next_txn_id, 13);
    let a = snap.seats.get("a:0").unwrap();
    assert_eq!((a.balance, a.escrow_held, a.escrow_items.len()), (270, 0, 0));
    assert_eq!(snap.seats.get("b:0").unwrap().balance, 50);
    assert_eq!(snap.seats.get("c:0").unwrap().balance, 501);
}

#[test]
fn tick_without_mic_advance_pays_no_passive() {
    let mut snap = BalancesSnapshot::default();
    snap.seats.insert("a:0".to_string(), seat(90, Vec::new()));
    let rows = process_tick(&mut snap, &EconomySettings::default(), false, &vec!["a:0".to_string()], "T");
    assert!(rows.is_empty());
    assert_eq!(snap.turn_counter, 1);
    assert_eq!(snap.seats.get("a:0").unwrap().balance, 90);
}

#[test]
fn decay_stops_at_the_floor() {
    let mut snap = BalancesSnapshot::default();
    snap.seats.insert("a:0".to_string(), seat(150, Vec::new()));
    let rows = process_tick(&mut snap, &EconomySettings::default(), false, &Vec::new(), "T");
    let amounts: Vec<i64> = rows.iter().map(|r| r.amount).collect();
    assert_eq!(amounts, vec![-1, -49]);
    assert_eq!(snap.seats.get("a:0").unwrap().balance, 100);
}

#[test]
fn gold_is_untouched_by_decay() {
    let mut snap = BalancesSnapshot::default();
    snap.seats.insert("a:0".to_string(), seat(30_000, Vec::new()));
    let rows = process_tick(&mut snap, &EconomySettings::default(), false, &Vec::new(), "T");
    assert!(rows.is_empty());
    assert_eq!(snap.seats.get("a:0").unwrap().balance, 30_000);
}
