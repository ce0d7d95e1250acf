use vaak_core::groups::{role_group_removal, save_role_group_plan, RoleGroup};
use vaak_core::sections::{
    board_lock_timeout_msg, lock_step, new_section_slug, order_sections, LockStep, SectionInfo, LOCK_TIMEOUT_MS,
};

fn section(slug: &str, created: &str, active: bool) -> SectionInfo {
    SectionInfo {
        slug: slug.to_string(),
        name: slug.to_string(),
        created_at: created.to_string(),
        message_count: 0,
        last_activity: None,
        is_active: active,
    }
}

#[test]
fn sections_active_first_then_by_creation() {
    let v = vec![
        section("c", "2026-03-01", false),
        section("a", "2026-01-01", false),
        section("act", "2026-05-01", true),
        section("b", "2026-02-01", false),
        section("a2", "2026-01-01", false),
    ];
    let slugs: Vec<String> = order_sections(v).into_iter().map(|s| s.slug).collect();
    assert_eq!(slugs, vec!["act", "a", "a2", "b", "c"]);
}

#[test]
fn new_section_slug_rules() {
    assert_eq!(new_section_slug("My  Cool Section!"), Ok("my-cool-section".to_string()));
    assert_eq!(new_section_slug("  !!  "), Err("Section name cannot be empty".to_string()));
}

#[test]
fn lock_wait_steps() {
    assert_eq!(lock_step(true, 99_999), LockStep::Proceed);
    assert_eq!(lock_step(false, LOCK_TIMEOUT_MS), LockStep::Wait);
    assert_eq!(lock_step(false, LOCK_TIMEOUT_MS + 1), LockStep::GiveUp);
    assert_eq!(
        board_lock_timeout_msg("/p/.vaak/board.lock"),
        "board.lock held for >10s \u{2014} possible stale lock from hung process. Lock file: /p/.vaak/board.lock"
    );
}

fn group(slug: &str) -> RoleGroup {
    RoleGroup {
        name: "Team".to_string(),
        slug: slug.to_string(),
        icon: String::new(),
        description: String::new(),
        roles: Vec::new(),
        parent: None,
        order: None,
    }
}

#[test]
fn role_group_upsert_position() {
    let existing = vec![Some("a".to_string()), None, Some("core".to_string()), Some("core".to_string())];
    assert_eq!(save_role_group_plan(&group("core"), &existing), Ok(Some(2)));
    assert_eq!(save_role_group_plan(&group("new"), &existing), Ok(None));
    assert_eq!(save_role_group_plan(&group("Bad"), &existing), Err("Role slug must be lowercase alphanumeric with hyphens only".to_string()));
}

#[test]
fn role_group_removal_errors() {
    let existing = vec![Some("a".to_string()), Some("b".to_string())];
    assert_eq!(role_group_removal(Some(&existing), "b"), Ok(vec![true, false]));
    assert_eq!(role_group_removal(Some(&existing), "zz"), Err("Role group 'zz' not found".to_string()));
    assert_eq!(role_group_removal(None, "zz"), Err("No role_groups in project.json".to_string()));
    assert_eq!(role_group_removal(None, ""), Err("Role slug cannot be empty".to_string()));
}
