use vaak_core::audio::{input_device_list, wav_base64};
use vaak_core::decisions::{latest_resolutions, DecisionResolution};
use vaak_core::discussion::{discussion_or_idle, DiscussionSettings, DiscussionState};
use vaak_core::project::RoleConfig;
use vaak_core::roles::{
    adversarial_seed_targets, seat_role, apply_role_update, is_built_in_role, new_custom_role, role_delete_check, role_keep_mask,
    role_template_save_check, template_presence_check, template_slug, templates_to_import, RoleUpdate,
};
use vaak_core::roster::StatusBinding;

fn res(id: u64, kind: &str, at: &str) -> DecisionResolution {
    DecisionResolution {
        decision_id: id,
        kind: kind.to_string(),
        option_id: None,
        other_text: None,
        reason: None,
        at: at.to_string(),
        by: "human".to_string(),
    }
}

#[test]
fn cancel_after_resolve_wins() {
    let rows = vec![res(7, "resolve", "t1"), res(9, "resolve", "t2"), res(7, "cancel", "t3")];
    let m = latest_resolutions(rows);
    assert_eq!(m.len(), 2);
    assert_eq!(m.get(&7).unwrap().kind, "cancel");
    assert_eq!(m.get(&7).unwrap().at, "t3");
    assert_eq!(m.get(&9).unwrap().kind, "resolve");
    assert!(m.get(&8).is_none());
}

#[test]
fn empty_resolution_log_reads_empty() {
    assert!(latest_resolutions(Vec::new()).is_empty());
}

#[test]
fn idle_discussion_defaults() {
    let s = DiscussionState::default();
    assert!(!s.active);
    assert_eq!(s.topic, "");
    assert_eq!(s.current_round, 0);
    assert!(s.rounds.is_empty());
    let d = DiscussionSettings::default();
    assert_eq!(d.max_rounds, 10);
    assert_eq!(d.timeout_minutes, 15);
    assert_eq!(d.expire_paused_after_minutes, 60);
    assert_eq!(d.auto_close_timeout_seconds, 60);
    assert!(!discussion_or_idle(None).active);
    let mut running = DiscussionState::default();
    running.active = true;
    running.topic = "naming".to_string();
    let kept = discussion_or_idle(Some(running));
    assert!(kept.active);
    assert_eq!(kept.topic, "naming");
}

#[test]
fn device_list_marks_default_and_skips_unnamed() {
    let names = vec![Some("Built-in Mic".to_string()), None, Some("USB Mic".to_string())];
    let v = input_device_list(names, Some("USB Mic".to_string()));
    assert_eq!(v.len(), 2);
    assert_eq!(v[0].name, "Built-in Mic");
    assert!(!v[0].is_default);
    assert_eq!(v[1].name, "USB Mic");
    assert!(v[1].is_default);
    let none_default = input_device_list(vec![Some("A".to_string())], None);
    assert!(!none_default[0].is_default);
}

fn binding(role: &str, status: &str, hb: &str) -> StatusBinding {
    StatusBinding {
        role: Some(role.to_string()),
        instance: Some(0),
        status: Some(status.to_string()),
        last_heartbeat: hb.to_string(),
        activity: None,
        session_id: None,
    }
}

// 2026-01-01T00:00:00Z
const NOW: u64 = 1_767_225_600;

#[test]
fn built_in_roles_cannot_be_deleted() {
    for r in ["developer", "manager", "architect", "tester", "moderator"] {
        assert!(is_built_in_role(r));
        assert_eq!(role_delete_check(r, Ok(120), &Vec::new(), NOW), Err(format!("Cannot delete built-in role '{}'", r)));
    }
    assert!(!is_built_in_role("qa-lead"));
}

#[test]
fn role_with_live_session_cannot_be_deleted() {
    let live = vec![binding("qa-lead", "active", "2025-12-31T23:59:00Z")];
    assert_eq!(
        role_delete_check("qa-lead", Ok(120), &live, NOW),
        Err("Cannot delete role 'qa-lead': has active sessions. Remove agents first.".to_string())
    );
}

#[test]
fn stale_or_other_sessions_do_not_block_deletion() {
    let bs = vec![
        binding("qa-lead", "active", "2025-12-31T23:00:00Z"),
        binding("qa-lead", "gone", "2025-12-31T23:59:59Z"),
        binding("developer", "active", "2025-12-31T23:59:59Z"),
        binding("qa-lead", "active", ""),
    ];
    assert_eq!(role_delete_check("qa-lead", Ok(120), &bs, NOW), Ok(()));
    assert_eq!(role_delete_check("qa-lead", Err("Failed to read project.json: gone".to_string()), &bs, NOW),
        Err("Failed to read project.json: gone".to_string()));
}

#[test]
fn deleting_a_role_drops_its_entries_only() {
    let roles = vec![Some("qa".to_string()), None, Some("dev".to_string()), Some("qa".to_string())];
    assert_eq!(role_keep_mask(&roles, "qa"), vec![false, true, true, false]);
}

#[test]
fn template_save_refuses_bad_slugs_and_built_ins() {
    assert_eq!(role_template_save_check("qa-lead"), Ok(()));
    assert_eq!(
        role_template_save_check("developer"),
        Err("Cannot overwrite built-in role 'developer' as a global template".to_string())
    );
    assert_eq!(
        role_template_save_check("QA"),
        Err("Role slug must be lowercase alphanumeric with hyphens only".to_string())
    );
    assert_eq!(role_template_save_check(""), Err("Role slug cannot be empty".to_string()));
}

#[test]
fn template_removal_needs_a_file() {
    assert_eq!(template_presence_check("qa", false, false), Err("No global template found for 'qa'".to_string()));
    assert_eq!(template_presence_check("qa", false, true), Ok(()));
    assert_eq!(template_presence_check("qa", true, false), Ok(()));
}

#[test]
fn template_file_names() {
    assert_eq!(template_slug("qa.json"), Some("qa".to_string()));
    assert_eq!(template_slug("a.b.json"), Some("a.b".to_string()));
    assert_eq!(template_slug(".json"), None);
    assert_eq!(template_slug("qa.md"), None);
    assert_eq!(template_slug("json"), None);
}

#[test]
fn import_adds_only_missing_templates() {
    let existing = vec!["qa".to_string(), "developer".to_string()];
    let names: Vec<String> =
        ["qa.json", "ux.json", "ux.md", "notes.txt", "ops.json"].iter().map(|s| s.to_string()).collect();
    assert_eq!(templates_to_import(&existing, &names), vec!["ux".to_string(), "ops".to_string()]);
}

#[test]
fn create_role_rules() {
    let existing = vec!["qa".to_string()];
    let made = new_custom_role(
        Some(&existing),
        "ux",
        "UX",
        "Designs",
        vec!["broadcast".to_string()],
        2,
        vec!["design".to_string()],
        Vec::new(),
        None,
        None,
        "2026-01-01T00:00:00Z".to_string(),
    )
    .unwrap();
    assert!(made.custom);
    assert_eq!(made.title, "UX");
    assert_eq!(made.max_instances, 2);
    assert_eq!(made.created_at, "2026-01-01T00:00:00Z");
    let dup = new_custom_role(
        Some(&existing), "qa", "QA", "", Vec::new(), 1, Vec::new(), Vec::new(), None, None, String::new(),
    );
    assert_eq!(dup.err(), Some("Role 'qa' already exists".to_string()));
    let none = new_custom_role(None, "qa", "QA", "", Vec::new(), 1, Vec::new(), Vec::new(), None, None, String::new());
    assert_eq!(none.err(), Some("No roles object in project.json".to_string()));
}

#[test]
fn update_role_rules() {
    let role = RoleConfig {
        title: "QA".to_string(),
        description: "Tests".to_string(),
        max_instances: 1,
        permissions: Vec::new(),
        created_at: "t0".to_string(),
        tags: vec!["x".to_string()],
        companions: Vec::new(),
        custom: true,
        stats: None,
        avatar_url: Some("https://a/b.png".to_string()),
    };
    let u = RoleUpdate {
        title: Some("Quality".to_string()),
        description: None,
        permissions: None,
        max_instances: Some(3),
        tags: None,
        companions: None,
        stats: None,
        avatar_url: Some(String::new()),
    };
    let c = apply_role_update(role, u);
    assert_eq!(c.title, "Quality");
    assert_eq!(c.description, "Tests");
    assert_eq!(c.max_instances, 3);
    assert_eq!(c.tags, vec!["x".to_string()]);
    assert_eq!(c.avatar_url, None);
    assert_eq!(c.created_at, "t0");
}

#[test]
fn seat_roles_and_adversarial_seed() {
    assert_eq!(seat_role("evil-architect:0"), Some("evil-architect".to_string()));
    assert_eq!(seat_role("human"), Some("human".to_string()));
    assert_eq!(seat_role(":3"), None);
    assert_eq!(seat_role(""), None);
    let roles = vec![
        ("developer".to_string(), false),
        ("dev-challenger".to_string(), false),
        ("evil-architect".to_string(), true),
    ];
    assert_eq!(adversarial_seed_targets(&roles), vec!["dev-challenger".to_string()]);
    let both = vec![("evil-architect".to_string(), false), ("dev-challenger".to_string(), false)];
    assert_eq!(adversarial_seed_targets(&both), vec!["evil-architect".to_string(), "dev-challenger".to_string()]);
    assert!(adversarial_seed_targets(&Vec::new()).is_empty());
}

#[test]
fn recording_as_base64_wav() {
    assert_eq!(
        wav_base64(&vec![0, 1, -1, 32767, -32768], 16000),
        Ok("UklGRi4AAABXQVZFZm10IBAAAAABAAEAgD4AAAB9AAACABAAZGF0YQoAAAAAAAEA////fwCA".to_string())
    );
    assert_eq!(
        wav_base64(&Vec::new(), 44100),
        Ok("UklGRiQAAABXQVZFZm10IBAAAAABAAEARKwAAIhYAQACABAAZGF0YQAAAAA=".to_string())
    );
}
