use vaak_core::currency::{
    bounty_clawback_for_message, latest_bounties, BalancesSnapshot, BountyRow, OpenBountiesSnapshot, SeatBalance,
};
use vaak_core::project::SessionRegistry;
use vaak_core::timefmt::{format_iso, parse_iso_epoch_pub};

#[test]
fn iso_suffixes_read_as_the_same_seconds() {
    let base = "2026-04-17T00:44:17";
    let secs = parse_iso_epoch_pub(base);
    assert_eq!(secs, Some(1_776_386_657));
    for suffix in ["Z", "+05:30", "-08:00", ".123", ".123Z"] {
        let text = format!("{}{}", base, suffix);
        assert_eq!(parse_iso_epoch_pub(&text), secs, "{}", text);
    }
}

#[test]
fn iso_suffixes_before_1970_read_as_the_same_seconds() {
    let base = "1960-05-01T12:00:00";
    let secs = parse_iso_epoch_pub(base);
    assert!(secs.is_some());
    for suffix in ["Z", "+01:00", "-01:00", ".5", ".5Z"] {
        let text = format!("{}{}", base, suffix);
        assert_eq!(parse_iso_epoch_pub(&text), secs, "{}", text);
    }
}

fn shaped(t: &str) -> bool {
    let b = t.as_bytes();
    b.len() == 20
        && b.iter().enumerate().all(|(i, c)| match i {
            4 | 7 => *c == b'-',
            10 => *c == b'T',
            13 | 16 => *c == b':',
            19 => *c == b'Z',
            _ => c.is_ascii_digit(),
        })
}

#[test]
fn iso_text_has_fixed_shape() {
    for secs in [0u64, 59, 3_600, 86_399, 951_782_400, 1_776_386_657, 4_102_444_799, 253_402_300_799] {
        let t = format_iso(secs);
        assert!(shaped(&t), "{}", t);
        assert_eq!(parse_iso_epoch_pub(&t), Some(secs));
    }
    assert_eq!(format_iso(0), "1970-01-01T00:00:00Z");
    assert_eq!(format_iso(253_402_300_799), "9999-12-31T23:59:59Z");
}

#[test]
fn later_names_overwrite_earlier_ones() {
    let mut r = SessionRegistry::new();
    r.set_session_names(&[("s1".to_string(), "Ann".to_string()), ("s2".to_string(), "Bob".to_string())]);
    r.set_session_names(&[
        ("s2".to_string(), "Bea".to_string()),
        ("s3".to_string(), "Cy".to_string()),
        ("s2".to_string(), "Bo".to_string()),
    ]);
    let got: Vec<(&str, &str)> = r.get_all_names().iter().map(|(a, b)| (a.as_str(), b.as_str())).collect();
    assert_eq!(got, vec![("s1", "Ann"), ("s2", "Bo"), ("s3", "Cy")]);
}

fn approved(id: &str, msg: u64) -> BountyRow {
    BountyRow {
        id: id.to_string(),
        description: "d".to_string(),
        amount: 200,
        posted_by: "human:0".to_string(),
        deadline_turn: 20,
        status: "approved".to_string(),
        claimant: Some("dev:0".to_string()),
        claim_stake: 20,
        submission_msg: Some(msg),
        approved_by: None,
        last_rejection_reason: None,
        posted_at: "T0".to_string(),
        resolved_at: None,
        turn_posted: 1,
    }
}

#[test]
fn clawback_for_message_finds_the_approved_bounty() {
    let mut snap = BalancesSnapshot::default();
    snap.seats.insert(
        "dev:0".to_string(),
        SeatBalance { balance: 1000, escrow_held: 0, escrow_items: Vec::new(), timed_out: false, system_dispute_ban_until: None },
    );
    let mut table = OpenBountiesSnapshot::new();
    table.bounties = latest_bounties(vec![approved("bty_000001", 41), approved("bty_000002", 42)]);
    let (found, out) = bounty_clawback_for_message(&mut snap, &mut table, 42, "critic:0", "disp_1", "T");
    assert_eq!(found.map(|b| b.id), Some("bty_000002".to_string()));
    assert_eq!(out.clawback, 180);
    assert_eq!(out.rows.len(), 3);
    assert_eq!(table.bounties.get("bty_000002").unwrap().status, "rejected");
    assert_eq!(table.bounties.get("bty_000001").unwrap().status, "approved");
}

#[test]
fn clawback_for_message_without_bounty_changes_nothing() {
    let mut snap = BalancesSnapshot::default();
    snap.next_txn_id = 5;
    let mut table = OpenBountiesSnapshot::new();
    table.bounties = latest_bounties(vec![approved("bty_000001", 41)]);
    let (found, out) = bounty_clawback_for_message(&mut snap, &mut table, 99, "critic:0", "disp_1", "T");
    assert!(found.is_none());
    assert_eq!(out.clawback, 0);
    assert!(out.rows.is_empty());
    assert!(out.updated.is_none());
    assert_eq!(snap.next_txn_id, 5);
    assert_eq!(table.bounties.get("bty_000001").unwrap().status, "approved");
}
