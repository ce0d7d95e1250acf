use vaak_core::a11y::{normalized_role_from_str, NormalizedRole};
use vaak_core::currency::{
    replay_balances_from_ledger, snapshot_add_open, snapshot_remove_open, LedgerRow, OpenDisputesSnapshot,
};
use vaak_core::oxford::next_debate_id;
use vaak_core::project::SessionRegistry;

fn lrow(id: u64, txn_type: &str, seat: &str, amount: i64) -> LedgerRow {
    LedgerRow { id, txn_type: txn_type.to_string(), seat: seat.to_string(), amount, ..Default::default() }
}

#[test]
fn replay_rebuilds_balances_and_next_id() {
    let rows = vec![lrow(3, "init", "a:0", 500), lrow(9, "passive", "a:0", 1), lrow(4, "init", "b:0", 500)];
    let snap = replay_balances_from_ledger(&rows).unwrap();
    assert_eq!(snap.seats.get("a:0").unwrap().balance, 501);
    assert_eq!(snap.seats.get("b:0").unwrap().balance, 500);
    assert_eq!(snap.next_txn_id, 10);
    assert_eq!(snap.turn_counter, 0);
    let empty = replay_balances_from_ledger(&Vec::new()).unwrap();
    assert_eq!(empty.next_txn_id, 1);
    assert_eq!(empty.seats.len(), 0);
}

#[test]
fn replay_stops_at_an_unknown_row_type() {
    let rows = vec![lrow(1, "init", "a:0", 500), lrow(2, "mystery", "a:0", 5)];
    match replay_balances_from_ledger(&rows) {
        Err(m) => assert_eq!(m, "currency.replay HARD ERROR: unknown transaction type \"mystery\" (row id 2)"),
        Ok(_) => panic!("an unknown row type must stop the replay"),
    }
}

#[test]
fn open_dispute_indexes() {
    let mut s = OpenDisputesSnapshot::new();
    snapshot_add_open(&mut s, "disp_1", "critic:0", "dev:0");
    snapshot_add_open(&mut s, "disp_2", "critic:0", "qa:0");
    assert_eq!(s.open_by_challenger.ids_for("critic:0"), vec!["disp_1".to_string(), "disp_2".to_string()]);
    assert_eq!(s.open_by_target.ids_for("dev:0"), vec!["disp_1".to_string()]);
    snapshot_remove_open(&mut s, "disp_1", "critic:0", "dev:0");
    assert_eq!(s.open_by_challenger.ids_for("critic:0"), vec!["disp_2".to_string()]);
    assert!(s.open_by_target.ids_for("dev:0").is_empty());
    assert_eq!(s.open_by_target.len(), 1);
}

#[test]
fn debate_ids_follow_the_largest() {
    assert_eq!(next_debate_id(&Vec::new()), 1);
    assert_eq!(next_debate_id(&vec![3, 9, 4]), 10);
}

#[test]
fn session_registry_heartbeats_and_names() {
    let mut r = SessionRegistry::new();
    r.update_heartbeat_at("s1", Some("/p"), 1_000, "host".to_string());
    r.set_session_names(&[("s1".to_string(), "Ann".to_string()), ("s2".to_string(), "Bob".to_string())]);
    r.update_heartbeat_at("s2", None, 2_000, "host".to_string());
    r.update_heartbeat_at("s1", Some(""), 5_000, "other".to_string());
    let active = r.get_active_at(121_000);
    let seen: Vec<(&str, u64, &str, &str, &str)> = active
        .iter()
        .map(|s| (s.session_id.as_str(), s.last_heartbeat, s.hostname.as_str(), s.cwd.as_str(), s.name.as_str()))
        .collect();
    assert_eq!(seen, vec![("s1", 5_000, "host", "/p", "Ann"), ("s2", 2_000, "host", "", "Bob")]);
    assert_eq!(r.get_active_at(122_000).len(), 1);
    assert_eq!(r.get_all_names().len(), 2);
}

#[test]
fn role_names_parse() {
    assert_eq!(normalized_role_from_str("Button"), NormalizedRole::Button);
    assert_eq!(normalized_role_from_str("Nonsense"), NormalizedRole::Unknown("Nonsense".to_string()));
}
