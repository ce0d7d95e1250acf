use vaak_core::currency::{ActionKind, BalancesSnapshot, BountyRow, LedgerRow, SeatBalance, STARTING_BALANCE_COPPER};
use vaak_core::snapshot::{latest_disputes, session_snapshot_at, snapshot_seat_list, DisputeRow};

fn row(seat: &str, t: &str, amount: i64, reason: &str, kind: Option<ActionKind>) -> LedgerRow {
    LedgerRow {
        txn_type: t.to_string(),
        seat: seat.to_string(),
        amount,
        reason: reason.to_string(),
        action_kind: kind,
        ..Default::default()
    }
}

fn dispute(id: &str, challenger: &str, target: &str, status: &str, resolution: Option<&str>) -> DisputeRow {
    DisputeRow {
        id: id.to_string(),
        challenger: challenger.to_string(),
        target: target.to_string(),
        target_msg: 1,
        pool: 0,
        status: status.to_string(),
        resolution: resolution.map(|s| s.to_string()),
        messages: Vec::new(),
        judge: None,
        opened_at: String::new(),
        resolved_at: None,
        turn_opened: 0,
    }
}

fn bounty(id: &str, status: &str, claimant: Option<&str>) -> BountyRow {
    BountyRow {
        id: id.to_string(),
        description: String::new(),
        amount: 100,
        posted_by: "human:0".to_string(),
        deadline_turn: 10,
        status: status.to_string(),
        claimant: claimant.map(|s| s.to_string()),
        claim_stake: 0,
        submission_msg: None,
        approved_by: None,
        last_rejection_reason: None,
        posted_at: String::new(),
        resolved_at: None,
        turn_posted: 0,
    }
}

fn balances() -> BalancesSnapshot {
    let mut b = BalancesSnapshot::new();
    b.turn_counter = 42;
    let mut s = SeatBalance::empty();
    s.balance = 731;
    s.timed_out = true;
    b.seats.insert("dev:0".to_string(), s);
    b
}

#[test]
fn seat_list_is_sorted_union_without_pool() {
    let ledger = vec![
        row("zeta:1", "credit", 5, "", None),
        row("system:pool", "pool_destroyed", -3, "", None),
        row("alpha:0", "credit", 5, "", None),
        row("dev:0", "credit", 1, "", None),
    ];
    let names = snapshot_seat_list(&balances(), &ledger);
    assert_eq!(names, vec!["alpha:0".to_string(), "dev:0".to_string(), "zeta:1".to_string()]);
}

#[test]
fn latest_dispute_row_wins() {
    let rows = vec![
        dispute("d1", "a:0", "b:0", "open", None),
        dispute("d2", "a:0", "c:0", "open", None),
        dispute("d1", "a:0", "b:0", "resolved", Some("target_wins")),
    ];
    let latest = latest_disputes(rows);
    assert_eq!(latest.len(), 2);
    assert_eq!(latest[0].id, "d2");
    assert_eq!(latest[1].id, "d1");
    assert_eq!(latest[1].status, "resolved");
}

#[test]
fn snapshot_figures_per_seat() {
    let ledger = vec![
        row("dev:0", "init", 800, "", None),
        row("dev:0", "credit", 10, "", Some(ActionKind::Speak)),
        row("dev:0", "credit", -4, "", None),
        row("dev:0", "escrow_release", 20, "", Some(ActionKind::Edit)),
        row("dev:0", "penalty", -50, "Adversarial PASS penalty", Some(ActionKind::Pass)),
        row("dev:0", "debit", 7, "", Some(ActionKind::Test)),
        row("qa:0", "credit", 3, "", Some(ActionKind::Speak)),
        row("system:pool", "pool_destroyed", -30, "", None),
        row("qa:0", "bounty_expire", 12, "", None),
    ];
    let disputes = vec![
        dispute("d1", "dev:0", "qa:0", "resolved", Some("challenger_wins")),
        dispute("d2", "qa:0", "dev:0", "resolved", Some("conceded_by_qa:0")),
        dispute("d3", "qa:0", "dev:0", "open", None),
    ];
    let bounties = vec![
        bounty("b1", "claimed", Some("dev:0")),
        bounty("b1", "approved", Some("dev:0")),
        bounty("b2", "approved", Some("qa:0")),
    ];
    let snap = session_snapshot_at(1_776_386_657, &balances(), &ledger, disputes, bounties);
    assert_eq!(snap.session_end_ts, "2026-04-17T00:44:17Z");
    assert_eq!(snap.session_date, "2026-04-17");
    assert_eq!(snap.duration_turns, 42);
    assert_eq!(snap.total_pool_destroyed, 42);
    assert_eq!(snap.seats.len(), 2);
    let (name, dev) = &snap.seats[0];
    assert_eq!(name, "dev:0");
    assert_eq!(dev.final_balance, 731);
    assert_eq!(dev.starting_balance, 800);
    assert_eq!(dev.total_earned, 30);
    assert_eq!(dev.total_lost, 57);
    assert_eq!((dev.speaks, dev.edits, dev.tests, dev.passes), (1, 1, 1, 1));
    assert_eq!((dev.objections_filed, dev.objections_received), (1, 2));
    assert_eq!((dev.disputes_won, dev.disputes_lost), (2, 0));
    assert_eq!(dev.bounties_completed, 1);
    assert_eq!(dev.times_timed_out, 1);
    assert_eq!(dev.adversarial_pass_penalties, 1);
    let (name, qa) = &snap.seats[1];
    assert_eq!(name, "qa:0");
    assert_eq!(qa.final_balance, STARTING_BALANCE_COPPER);
    assert_eq!(qa.starting_balance, STARTING_BALANCE_COPPER);
    assert_eq!(qa.total_earned, 3);
    assert_eq!((qa.disputes_won, qa.disputes_lost), (0, 2));
    assert_eq!(qa.bounties_completed, 1);
    assert_eq!(qa.times_timed_out, 0);
}
