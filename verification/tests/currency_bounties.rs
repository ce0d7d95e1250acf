use vaak_core::currency::{
    emit_bounty_clawback, expire_overdue_bounties, is_approved_bounty_submission, latest_bounties, ActionKind,
    BalancesSnapshot, BountyRow, OpenBountiesSnapshot, SeatBalance,
};

fn bounty(id: &str, status: &str, amount: i64, claimant: Option<&str>, stake: i64, deadline: u64) -> BountyRow {
    BountyRow {
        id: id.to_string(),
        description: "d".to_string(),
        amount,
        posted_by: "human:0".to_string(),
        deadline_turn: deadline,
        status: status.to_string(),
        claimant: claimant.map(|c| c.to_string()),
        claim_stake: stake,
        submission_msg: Some(77),
        approved_by: None,
        last_rejection_reason: None,
        posted_at: "T0".to_string(),
        resolved_at: None,
        turn_posted: 1,
    }
}

fn seat(balance: i64) -> SeatBalance {
    SeatBalance { balance, escrow_held: 0, escrow_items: Vec::new(), timed_out: false, system_dispute_ban_until: None }
}

#[test]
fn clawback_splits_between_challenger_and_pool() {
    let mut snap = BalancesSnapshot::default();
    snap.turn_counter = 6;
    snap.next_txn_id = 10;
    snap.seats.insert("dev:0".to_string(), seat(1000));
    let mut table = OpenBountiesSnapshot::new();
    let b = bounty("bty_000001", "approved", 301, Some("dev:0"), 30, 20);
    table.bounties = latest_bounties(vec![b.clone()]);
    let out = emit_bounty_clawback(&mut snap, &mut table, &b, "critic:0", "disp_00000a", "T");
    // 90% of 301 is 270 (truncated): 135 to the challenger, 135 destroyed.
    assert_eq!(out.clawback, 270);
    let got: Vec<(u64, &str, &str, i64, i64)> =
        out.rows.iter().map(|r| (r.id, r.txn_type.as_str(), r.seat.as_str(), r.amount, r.balance_after)).collect();
    assert_eq!(
        got,
        vec![
            (10, "bounty_clawback", "dev:0", -270, 730),
            (11, "credit", "critic:0", 135, 635),
            (12, "pool_destroyed", "system:pool", -135, 0),
        ]
    );
    assert_eq!(out.rows[0].reason, "bounty bty_000001 clawback (90% on objection from disp_00000a)");
    assert_eq!(out.rows[1].reason, "bounty bty_000001 clawback share (135 of 270 from disp_00000a)");
    assert_eq!(out.rows[2].reason, "bounty bty_000001 clawback destroyed share (135 of 270 from disp_00000a)");
    assert_eq!(out.rows[0].action_kind, Some(ActionKind::BountyClawback));
    assert!(out.rows.iter().all(|r| r.ref_msg == Some(77) && r.turn == Some(6)));
    let u = out.updated.unwrap();
    assert_eq!(u.status, "rejected");
    assert_eq!(u.last_rejection_reason.as_deref(), Some("objection sustained (disp_00000a)"));
    assert_eq!(u.resolved_at.as_deref(), Some("T"));
    assert_eq!(table.bounties.get("bty_000001").unwrap().status, "rejected");
    assert_eq!(snap.next_txn_id, 13);
}

#[test]
fn clawback_without_claimant_does_nothing() {
    let mut snap = BalancesSnapshot::default();
    let mut table = OpenBountiesSnapshot::new();
    let b = bounty("bty_000002", "approved", 100, None, 0, 20);
    let out = emit_bounty_clawback(&mut snap, &mut table, &b, "critic:0", "d", "T");
    assert_eq!(out.clawback, 0);
    assert!(out.rows.is_empty());
    assert!(out.updated.is_none());
}

#[test]
fn expiry_burns_claimed_stakes_and_marks_expired() {
    let mut snap = BalancesSnapshot::default();
    snap.turn_counter = 10;
    snap.next_txn_id = 3;
    let mut table = OpenBountiesSnapshot::new();
    table.bounties = latest_bounties(vec![
        bounty("b1", "open", 100, None, 0, 10),
        bounty("b2", "claimed", 100, Some("dev:0"), 10, 9),
        bounty("b3", "claimed", 100, Some("qa:0"), 10, 11),
        bounty("b4", "approved", 100, Some("qa:0"), 10, 1),
        bounty("b5", "claimed", 100, None, 0, 2),
    ]);
    let out = expire_overdue_bounties(&mut snap, &mut table, "T");
    let rows: Vec<(u64, &str, i64, &str)> =
        out.rows.iter().map(|r| (r.id, r.seat.as_str(), r.amount, r.reason.as_str())).collect();
    assert_eq!(rows, vec![(3, "system:pool", -10, "bounty b2 expired @turn 10 — claimant dev:0 stake destroyed")]);
    let expired: Vec<&str> = out.expired.iter().map(|b| b.id.as_str()).collect();
    assert_eq!(expired, vec!["b1", "b2", "b5"]);
    assert_eq!(table.bounties.get("b1").unwrap().status, "expired");
    assert_eq!(table.bounties.get("b3").unwrap().status, "claimed");
    assert_eq!(table.bounties.get("b4").unwrap().status, "approved");
    assert_eq!(snap.next_txn_id, 4);
}

#[test]
fn approved_submission_lookup() {
    let table = latest_bounties(vec![bounty("b1", "claimed", 1, None, 0, 1), bounty("b2", "approved", 1, None, 0, 1)]);
    assert_eq!(is_approved_bounty_submission(&table, 77).unwrap().id, "b2");
    assert!(is_approved_bounty_submission(&table, 78).is_none());
}
