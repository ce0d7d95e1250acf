use vaak_core::a11y::announce::build_announcement;
use vaak_core::build_info::short_sha;
use vaak_core::launcher::{
    dedupe_spawned, human_keep_mask, reconnect_alive, relaunch_plan, respawn_mask, revoke_keep_mask, RevokeKey,
    SpawnedAgent, WatchBinding,
};

fn agent(pid: u32, role: &str, instance: i32, at: &str) -> SpawnedAgent {
    SpawnedAgent { pid, role: role.to_string(), instance, spawned_at: at.to_string() }
}

#[test]
fn load_spawned_from_disk_dedupes_by_role_instance_newest_wins() {
    let polluted = vec![
        agent(1, "developer", 0, "2026-04-15T00:00:00Z"),
        agent(2, "developer", 0, "2026-04-16T00:00:00Z"),
        agent(3, "developer", 0, "2026-04-17T00:00:00Z"),
        agent(4, "tester", 0, "2026-04-17T00:00:00Z"),
    ];
    let loaded = dedupe_spawned(polluted);
    assert_eq!(loaded.len(), 2, "dedupe: 3 developer:0 entries collapse to 1");
    let dev = loaded.iter().find(|a| a.role == "developer" && a.instance == 0).unwrap();
    assert_eq!(dev.pid, 3, "newest-wins: pid=3 (2026-04-17) beats pid=1,2");
}

#[test]
fn dedupe_orders_newest_first_and_keeps_ties_in_order() {
    let v = vec![
        agent(1, "a", 0, "2026-01-01T00:00:00Z"),
        agent(2, "b", 0, "2026-03-01T00:00:00Z"),
        agent(3, "c", 0, "2026-03-01T00:00:00Z"),
        agent(4, "a", 0, "2026-02-01T00:00:00Z"),
    ];
    let pids: Vec<u32> = dedupe_spawned(v).iter().map(|a| a.pid).collect();
    assert_eq!(pids, vec![2, 3, 4]);
}

#[test]
fn relaunch_and_reconnect_plans() {
    let disk = vec![agent(10, "dev", 0, "t"), agent(11, "qa", 0, "t"), agent(12, "ops", 1, "t")];
    let memory = vec![agent(99, "qa", 0, "t")];
    let plan = relaunch_plan(disk.clone(), &memory, &vec![false, false, true]);
    assert_eq!(plan.iter().map(|a| a.pid).collect::<Vec<_>>(), vec![10]);
    let mut held = memory.clone();
    let n = reconnect_alive(&mut held, disk, &vec![true, true, true]);
    assert_eq!(n, 2);
    assert_eq!(held.iter().map(|a| a.pid).collect::<Vec<_>>(), vec![99, 10, 12]);
}

#[test]
fn watchdog_respawns_dead_or_stale() {
    let agents = vec![agent(1, "dev", 0, "t"), agent(2, "qa", 0, "t"), agent(3, "ops", 0, "t"), agent(4, "pm", 0, "t")];
    let now = 1_776_386_657u64;
    let bindings = vec![
        WatchBinding { role: "dev".to_string(), instance: 0, last_heartbeat: Some("2026-04-17T00:44:00Z".to_string()) },
        WatchBinding { role: "qa".to_string(), instance: 0, last_heartbeat: Some("2026-04-17T00:40:00Z".to_string()) },
        WatchBinding { role: "ops".to_string(), instance: 0, last_heartbeat: None },
    ];
    let mask = respawn_mask(&agents, &vec![true, true, true, false], &bindings, now, 90);
    assert_eq!(mask, vec![false, true, true, true]);
}

#[test]
fn revoke_masks() {
    let keys = vec![
        RevokeKey { role: "dev".to_string(), instance: 0 },
        RevokeKey { role: "dev".to_string(), instance: 1 },
        RevokeKey { role: "human".to_string(), instance: -1 },
    ];
    assert_eq!(revoke_keep_mask(&keys, "dev", 1), vec![true, false, true]);
    assert_eq!(revoke_keep_mask(&keys, "dev", 5), vec![true, true, true]);
    let roles = vec!["human".to_string(), "dev".to_string(), String::new()];
    assert_eq!(human_keep_mask(&roles), vec![true, false, false]);
}

#[test]
fn announcement_parts_and_truncation() {
    assert_eq!(build_announcement("Name", "TextInput", ""), "Name, edit field, empty");
    assert_eq!(build_announcement("", "Unknown", "v"), "v");
    assert_eq!(build_announcement("OK", "Button", ""), "OK, button");
    let long: String = std::iter::repeat('x').take(60).collect();
    let expected = format!("{}...", "x".repeat(50));
    assert_eq!(build_announcement("", "Slider", &long), format!("slider, {}", expected));
    assert_eq!(build_announcement("", "", ""), "");
}

#[test]
fn short_sha_takes_seven() {
    assert_eq!(short_sha("0123456789abcdef"), "0123456");
    assert_eq!(short_sha("abc"), "abc");
}
