use vaak_core::adjust::{apply_carryover, apply_human_adjust};
use vaak_core::currency::{ActionKind, BalancesSnapshot, SeatBalance};

fn seat(balance: i64) -> SeatBalance {
    SeatBalance { balance, escrow_held: 0, escrow_items: Vec::new(), timed_out: false, system_dispute_ban_until: None }
}

#[test]
fn human_adjust_refusals_in_order() {
    let mut snap = BalancesSnapshot::default();
    snap.seats.insert("a:0".to_string(), seat(100));
    let cases = [
        ("dev:0", "a:0", 5, "r", "[HumanAdjust] only human:* can adjust balances directly."),
        ("human:0", "  ", 5, "r", "[HumanAdjust] seat label is required."),
        (
            "human:0",
            "a:0",
            5,
            " ",
            "[HumanAdjustReasonRequired] non-empty reason is mandatory (audit requirement per architect msg 469).",
        ),
        ("human:0", "a:0", 0, "r", "[HumanAdjust] amount_copper must be non-zero (positive = credit, negative = debit)."),
        ("human:0", "z:9", 5, "r", "[HumanAdjust] seat z:9 has no balance entry yet (must join first)."),
    ];
    for (caller, s, amount, reason, msg) in cases {
        match apply_human_adjust(&mut snap, caller, s, amount, reason, "T") {
            Err(m) => assert_eq!(m, msg),
            Ok(_) => panic!("expected a refusal for {:?}", (caller, s, amount, reason)),
        }
    }
    assert_eq!(snap.next_txn_id, 0);
    assert_eq!(snap.seats.get("a:0").unwrap().balance, 100);
}

#[test]
fn human_adjust_debit_times_out_at_the_deficit_cap() {
    let mut snap = BalancesSnapshot::default();
    snap.turn_counter = 4;
    snap.next_txn_id = 9;
    snap.seats.insert("a:0".to_string(), seat(100));
    let o = apply_human_adjust(&mut snap, "human:0", "a:0", -1100, "fine", "T").unwrap();
    assert_eq!((o.balance_before, o.balance_after, o.timed_out, o.txn_id), (100, -1000, true, 9));
    assert_eq!(o.row.txn_type, "human_adjust");
    assert_eq!(o.row.reason, "human_adjust by human:0: fine");
    assert_eq!(o.row.turn, Some(4));
    assert_eq!(o.row.action_kind, Some(ActionKind::HumanAdjust));
    assert_eq!(snap.next_txn_id, 10);
    let a = snap.seats.get("a:0").unwrap();
    assert_eq!(a.balance, -1000);
    assert!(a.timed_out);
}

#[test]
fn carryover_caps_carries_and_resets() {
    let mut bal = BalancesSnapshot::default();
    bal.next_txn_id = 3;
    bal.seats.insert("kept:0".to_string(), seat(42));
    let prev = vec![
        ("rich:0".to_string(), Some(900)),
        ("mid:0".to_string(), Some(250)),
        ("broke:0".to_string(), Some(-1000)),
        ("low:0".to_string(), Some(-5)),
        ("kept:0".to_string(), Some(777)),
        ("new:0".to_string(), None),
    ];
    let out = apply_carryover(&mut bal, "2026-05-01", &prev, "T");
    assert_eq!(out.carried, 5);
    assert_eq!(out.rows.len(), 6);
    let got: Vec<(u64, &str, i64)> = out.rows[..5].iter().map(|r| (r.id, r.seat.as_str(), r.amount)).collect();
    assert_eq!(got, vec![(3, "rich:0", 500), (4, "mid:0", 250), (5, "broke:0", 0), (6, "low:0", 0), (7, "new:0", 500)]);
    assert!(out.rows[..5].iter().all(|r| r.reason == "carried over from session 2026-05-01"));
    let banner = &out.rows[5];
    assert_eq!((banner.id, banner.seat.as_str(), banner.amount), (8, "system:session", 0));
    assert_eq!(
        banner.reason,
        "Session started. Carry-over:\nrich:0: 500 copper (capped from 900)\nmid:0: 250 copper (carried)\nbroke:0: 0 copper (timed out last session)\nlow:0: 0 copper (deficit not carried)\nnew:0: 500 copper (carried)"
    );
    assert_eq!(bal.next_txn_id, 8);
    assert_eq!(bal.seats.get("kept:0").unwrap().balance, 42);
    assert_eq!(bal.seats.get("rich:0").unwrap().balance, 500);
}

#[test]
fn carryover_of_known_seats_writes_nothing() {
    let mut bal = BalancesSnapshot::default();
    bal.seats.insert("a:0".to_string(), seat(1));
    let out = apply_carryover(&mut bal, "d", &vec![("a:0".to_string(), Some(300))], "T");
    assert_eq!(out.carried, 0);
    assert!(out.rows.is_empty());
    assert_eq!(bal.next_txn_id, 0);
}
