use vaak_core::oxford::validate_initiate;

fn s(v: &[&str]) -> Vec<String> {
    v.iter().map(|x| x.to_string()).collect()
}

#[test]
fn t_validate_empty_side_rejected() {
    let active = s(&["architect:0", "developer:1", "evil-architect:0"]);
    let err = validate_initiate("manager:0", "manager:0", &[], &s(&["developer:1"]), &[], &active).unwrap_err();
    assert_eq!(err, "[OxfordRequireMinOnePerSide]");
}

#[test]
fn t_validate_caller_not_moderator_or_human_rejected() {
    let active = s(&["architect:0", "developer:1"]);
    let err = validate_initiate(
        "developer:1",          // caller
        "manager:0",            // moderator
        &s(&["architect:0"]), &s(&["developer:1"]), &[], &active,
    ).unwrap_err();
    assert_eq!(err, "[OxfordInitiationDenied]");
}

#[test]
fn t_validate_human_can_initiate_any() {
    let active = s(&["architect:0", "developer:1", "manager:0"]);
    let result = validate_initiate(
        "human:0",
        "manager:0",
        &s(&["architect:0"]), &s(&["developer:1"]), &[], &active,
    );
    assert!(result.is_ok());
}

#[test]
fn t_validate_moderator_in_side_rejected() {
    let active = s(&["architect:0", "developer:1", "manager:0"]);
    let err = validate_initiate(
        "manager:0", "manager:0",
        &s(&["manager:0", "architect:0"]), &s(&["developer:1"]),
        &[], &active,
    ).unwrap_err();
    assert_eq!(err, "[OxfordRoleConflict]");
}

#[test]
fn t_validate_same_seat_both_sides_rejected() {
    let active = s(&["architect:0", "developer:1", "manager:0"]);
    let err = validate_initiate(
        "manager:0", "manager:0",
        &s(&["architect:0", "developer:1"]),
        &s(&["developer:1"]), // dev:1 on both sides
        &[], &active,
    ).unwrap_err();
    assert_eq!(err, "[OxfordRoleConflict]");
}

#[test]
fn t_validate_seat_not_in_roster_rejected() {
    let active = s(&["architect:0", "developer:1", "manager:0"]);
    let err = validate_initiate(
        "manager:0", "manager:0",
        &s(&["architect:0"]),
        &s(&["nobody:99"]),    // not in roster
        &[], &active,
    ).unwrap_err();
    assert_eq!(err, "[OxfordSeatNotInRoster]");
}

#[test]
fn t_validate_human_audience_member_allowed() {
    let active = s(&["architect:0", "developer:1", "manager:0"]);
    let result = validate_initiate(
        "human:0", "manager:0",
        &s(&["architect:0"]), &s(&["developer:1"]),
        &s(&["human:0"]),     // human in audience
        &active,
    );
    assert!(result.is_ok());
}
