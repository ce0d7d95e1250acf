use vaak_core::roster::{
    assembly_seats, assembly_transition, first_free_instance, next_roster_instance, prune_floor, roster_removal,
    seed_roster, slot_keep_mask, slot_status, AssemblyCandidate, FloorRefs, RosterKey, SeedBinding, SlotKey,
    StatusBinding,
};
use vaak_core::timefmt::format_iso;

#[test]
fn first_free_instance_finds_first_gap() {
    assert_eq!(first_free_instance(&vec![]), 0);
    assert_eq!(first_free_instance(&vec![0, 1, 2]), 3);
    assert_eq!(first_free_instance(&vec![2, 0, 3]), 1);
    assert_eq!(first_free_instance(&vec![1, 1, 1]), 0);
}

#[test]
fn next_roster_instance_counts_only_the_role() {
    let roster = vec![
        RosterKey { role: Some("dev".to_string()), instance: Some(0) },
        RosterKey { role: Some("qa".to_string()), instance: Some(1) },
        RosterKey { role: Some("dev".to_string()), instance: None },
        RosterKey { role: Some("dev".to_string()), instance: Some(1) },
        RosterKey { role: None, instance: Some(2) },
    ];
    assert_eq!(next_roster_instance(&roster, "dev"), 2);
    assert_eq!(next_roster_instance(&roster, "qa"), 0);
    // instance numbers are cut to 32 bits
    let wide = vec![RosterKey { role: Some("dev".to_string()), instance: Some(1u64 << 32) }];
    assert_eq!(next_roster_instance(&wide, "dev"), 1);
}

#[test]
fn seed_roster_dedupes_and_fills_added_at() {
    let bindings = vec![
        SeedBinding { role: "dev".to_string(), instance: 0, claimed_at: "T1".to_string() },
        SeedBinding { role: "dev".to_string(), instance: 0, claimed_at: "T2".to_string() },
        SeedBinding { role: String::new(), instance: 3, claimed_at: "T3".to_string() },
        SeedBinding { role: "qa".to_string(), instance: 1, claimed_at: String::new() },
    ];
    let seeds = seed_roster(&bindings, "NOW");
    assert_eq!(seeds.len(), 2);
    assert_eq!((seeds[0].role.as_str(), seeds[0].instance, seeds[0].added_at.as_str()), ("dev", 0, "T1"));
    assert_eq!((seeds[1].role.as_str(), seeds[1].instance, seeds[1].added_at.as_str()), ("qa", 1, "NOW"));
}

fn key(role: &str, instance: i64) -> SlotKey {
    SlotKey { role: Some(role.to_string()), instance: Some(instance) }
}

#[test]
fn roster_removal_drops_the_slot_or_errors() {
    let roster = vec![key("dev", 0), key("dev", 1), key("qa", 0)];
    assert_eq!(roster_removal(&roster, "dev", 1), Ok(vec![true, false, true]));
    assert_eq!(roster_removal(&roster, "dev", 7), Err("No roster slot found for dev:7".to_string()));
    assert_eq!(roster_removal(&roster, "ops", -2), Err("No roster slot found for ops:-2".to_string()));
    let bindings = vec![key("qa", 0), SlotKey { role: None, instance: Some(0) }];
    assert_eq!(slot_keep_mask(&bindings, "qa", 0), vec![false, true]);
}

#[test]
fn prune_floor_clears_references() {
    let floor = FloorRefs {
        rotation_order: Some(vec![Some("dev:1".to_string()), Some("qa:0".to_string()), None]),
        current_speaker: Some("dev:1".to_string()),
        moderator: Some("qa:0".to_string()),
        hand_queue: None,
    };
    let p = prune_floor(&floor, "dev:1");
    assert_eq!(p.rotation_keep, Some(vec![false, true, true]));
    assert!(p.clear_speaker);
    assert!(!p.clear_moderator);
    assert_eq!(p.hand_keep, None);
    assert!(p.changed);
    let q = prune_floor(&floor, "ops:0");
    assert!(!q.changed);
}

fn status_binding(role: &str, instance: u64, status: &str, hb: &str) -> StatusBinding {
    StatusBinding {
        role: Some(role.to_string()),
        instance: Some(instance),
        status: Some(status.to_string()),
        last_heartbeat: hb.to_string(),
        activity: Some("working".to_string()),
        session_id: Some("s-1".to_string()),
    }
}

#[test]
fn slot_status_fresh_stale_and_vacant() {
    let now = 1_000_000;
    let fresh = vec![status_binding("dev", 0, "active", &format_iso(now - 10))];
    assert_eq!(slot_status("dev", 0, &fresh, now, 120), ("working".to_string(), Some("s-1".to_string())));
    let stale = vec![status_binding("dev", 0, "active", &format_iso(now - 121))];
    assert_eq!(slot_status("dev", 0, &stale, now, 120), ("vacant".to_string(), None));
    let idle = vec![status_binding("dev", 0, "idle", &format_iso(now))];
    assert_eq!(slot_status("dev", 0, &idle, now, 120), ("vacant".to_string(), None));
    let mut no_activity = status_binding("dev", 0, "active", &format_iso(now));
    no_activity.activity = None;
    assert_eq!(slot_status("dev", 0, &vec![no_activity], now, 120).0, "standby");
}

fn candidate(role: &str, instance: u64, status: &str, hb: String) -> AssemblyCandidate {
    AssemblyCandidate { role: Some(role.to_string()), instance: Some(instance), status: status.to_string(), last_heartbeat: hb }
}

#[test]
fn assembly_seats_filter_status_and_freshness() {
    let now = 2_000_000;
    let bindings = vec![
        candidate("dev", 0, "active", format_iso(now - 90)),
        candidate("qa", 1, "idle", format_iso(now - 5)),
        candidate("ops", 0, "active", format_iso(now - 91)),
        candidate("pm", 0, "gone", format_iso(now)),
        AssemblyCandidate { role: None, instance: Some(0), status: "active".to_string(), last_heartbeat: format_iso(now) },
        candidate("arch", 2, "active", "not a time".to_string()),
    ];
    assert_eq!(assembly_seats(&bindings, now), vec!["dev:0".to_string(), "qa:1".to_string()]);
}

#[test]
fn assembly_transition_rules() {
    let order = vec!["dev:0".to_string(), "qa:1".to_string()];
    let on = assembly_transition("enable", false, order.clone(), "T", "human:0").unwrap();
    assert!(on.active);
    assert_eq!(on.current_speaker, Some("dev:0".to_string()));
    assert_eq!(on.rotation_order, order);
    assert_eq!(on.started_at, Some("T".to_string()));
    assert_eq!(on.started_by, Some("human:0".to_string()));
    let busy = assembly_transition("enable", true, order.clone(), "T", "human:0").unwrap_err();
    assert!(busy.starts_with("Cannot enable Assembly Line while a discussion is active."));
    let empty = assembly_transition("enable", false, vec![], "T", "human:0").unwrap_err();
    assert!(empty.starts_with("Cannot enable Assembly Line: no active seats with fresh heartbeats."));
    let off = assembly_transition("disable", true, order.clone(), "T", "x").unwrap();
    assert!(!off.active && off.current_speaker.is_none() && off.rotation_order.is_empty());
    assert_eq!(
        assembly_transition("pause", false, order, "T", "x").unwrap_err(),
        "Unknown assembly action: 'pause'. Valid: enable, disable"
    );
}
