use vaak_core::mcp::{
    method_not_found_text, route_request, session_id_from_env, speak_reply, tty_session_id, unknown_tool_text, McpStep,
};
use vaak_core::paths::{active_lock_path, board_path_for_section, decisions_jsonl_path_for_section};
use vaak_core::project::{
    alive_state_of, claim_is_gone, compute_role_statuses, slugify, validate_slug, RoleConfig, SessionBinding,
};
use vaak_core::snapshot::{next_snapshot_seq, snapshot_file_seq};

fn role(title: &str, max: u32) -> RoleConfig {
    RoleConfig {
        title: title.to_string(),
        description: String::new(),
        max_instances: max,
        permissions: Vec::new(),
        created_at: String::new(),
        tags: Vec::new(),
        companions: Vec::new(),
        custom: false,
        stats: None,
        avatar_url: None,
    }
}

fn binding(role: &str, status: &str, session: &str, hb: &str) -> SessionBinding {
    SessionBinding {
        role: role.to_string(),
        instance: 0,
        session_id: session.to_string(),
        claimed_at: String::new(),
        last_heartbeat: hb.to_string(),
        status: status.to_string(),
        activity: None,
        last_working_at: None,
        active_section: None,
    }
}

// 2026-01-01T00:00:00Z
const NOW: u64 = 1_767_225_600;

#[test]
fn role_statuses_count_bindings_and_recent_heartbeats() {
    let roles = vec![("dev".to_string(), role("Developer", 3)), ("qa".to_string(), role("QA", 1))];
    let bindings = vec![
        binding("dev", "active", "s1", "2025-12-31T23:55:00Z"),
        binding("dev", "active", "s2", "2025-12-31T20:00:00Z"),
        binding("dev", "gone", "s3", "2025-12-31T23:59:00Z"),
        binding("qa", "active", "s4", "2025-12-31T23:49:59Z"),
    ];
    let st = compute_role_statuses(&roles, &bindings, NOW, 120);
    let got: Vec<(&str, &str, u32, u32, &str)> = st
        .iter()
        .map(|s| (s.slug.as_str(), s.title.as_str(), s.active_instances, s.max_instances, s.status.as_str()))
        .collect();
    assert_eq!(got, vec![("dev", "Developer", 2, 3, "active"), ("qa", "QA", 1, 1, "vacant")]);
}

#[test]
fn claims_of_gone_sessions_and_seat_liveness() {
    let bindings = vec![binding("dev", "active", "s1", "2025-12-31T23:58:00Z"), binding("qa", "active", "s2", "junk")];
    assert!(!claim_is_gone(&bindings, "s1", NOW, 300));
    assert!(claim_is_gone(&bindings, "s1", NOW, 60));
    assert!(claim_is_gone(&bindings, "s2", NOW, 300));
    assert!(claim_is_gone(&bindings, "nobody", NOW, 300));
    assert_eq!(alive_state_of(None, 1_000_000), "unknown");
    assert_eq!(alive_state_of(Some(0), 1_000_000), "unknown");
    assert_eq!(alive_state_of(Some(900_000), 1_000_000), "active");
    assert_eq!(alive_state_of(Some(879_999), 1_000_000), "stale");
}

#[test]
fn section_slugs() {
    assert_eq!(slugify("My Big Section"), "my-big-section");
    assert_eq!(slugify("  --Ünïcode & Stuff!! "), "ünïcode-stuff");
    assert_eq!(validate_slug("ok-1"), Ok(()));
    assert_eq!(validate_slug("-bad"), Err("Role slug cannot start or end with a hyphen".to_string()));
}

#[test]
fn tool_server_routing() {
    assert_eq!(route_request(Some("initialize"), None, None), McpStep::Initialize);
    assert_eq!(route_request(Some("notifications/initialized"), None, None), McpStep::Silent);
    assert_eq!(route_request(Some("tools/list"), None, None), McpStep::ToolsList);
    assert_eq!(route_request(Some("tools/call"), Some("speak"), Some("hi")), McpStep::Speak("hi".to_string()));
    assert_eq!(route_request(Some("tools/call"), Some("speak"), None), McpStep::Silent);
    assert_eq!(route_request(Some("tools/call"), Some("shout"), Some("hi")), McpStep::UnknownTool("shout".to_string()));
    assert_eq!(route_request(Some("tools/call"), None, None), McpStep::Silent);
    assert_eq!(route_request(Some("ping"), None, None), McpStep::MethodNotFound("ping".to_string()));
    assert_eq!(route_request(None, None, None), McpStep::Silent);
    assert_eq!(speak_reply("hi", &Ok(())), ("Spoke: \"hi\"".to_string(), false));
    assert_eq!(
        speak_reply("hi", &Err("refused".to_string())),
        ("Could not reach Scribe: refused. Make sure the Scribe desktop app is running.".to_string(), true)
    );
    assert_eq!(unknown_tool_text("shout"), "Unknown tool: shout");
    assert_eq!(method_not_found_text("ping"), "Method not found: ping");
}

#[test]
fn session_ids_from_the_terminal() {
    assert_eq!(session_id_from_env(Some("x"), Some("w"), None, None), Some("x".to_string()));
    assert_eq!(session_id_from_env(Some(""), Some("w"), Some("i"), None), Some("wt-w".to_string()));
    assert_eq!(session_id_from_env(None, None, Some("i"), Some("t")), Some("iterm-i".to_string()));
    assert_eq!(session_id_from_env(None, Some(""), None, Some("t")), Some("term-t".to_string()));
    assert_eq!(session_id_from_env(None, None, None, None), None);
    assert_eq!(tty_session_id("box", "/dev/pts/3"), "box-tty-pts-3");
    assert_eq!(tty_session_id("box", "/dev/ttys004"), "box-tty-ttys004");
}

#[test]
fn snapshot_file_numbers() {
    assert_eq!(snapshot_file_seq("2026-05-01-007.json", "2026-05-01"), Some(7));
    assert_eq!(snapshot_file_seq("2026-05-01-.json", "2026-05-01"), None);
    assert_eq!(snapshot_file_seq("2026-05-02-1.json", "2026-05-01"), None);
    assert_eq!(snapshot_file_seq("2026-05-01-1.txt", "2026-05-01"), None);
    let names: Vec<String> = ["2026-05-01-001.json", "2026-05-01-012.json", "2026-05-02-040.json", "notes.txt", "2026-05-01-x.json"]
        .iter()
        .map(|s| s.to_string())
        .collect();
    assert_eq!(next_snapshot_seq(&names, "2026-05-01"), Some(13));
    assert_eq!(next_snapshot_seq(&Vec::new(), "2026-05-01"), Some(1));
    assert_eq!(next_snapshot_seq(&vec!["d-4294967295.json".to_string()], "d"), None);
}

#[test]
fn section_paths() {
    let p = board_path_for_section("/p", "default");
    assert_eq!((p.base.as_str(), p.parts.clone()), ("/p", vec![".vaak".to_string(), "board.jsonl".to_string()]));
    let q = decisions_jsonl_path_for_section("/p", "s1");
    assert_eq!(q.parts, vec![".vaak", "sections", "s1", "decisions.jsonl"]);
    assert_eq!(active_lock_path("/p", "s1").parts, vec![".vaak", "sections", "s1", "board.lock"]);
}
