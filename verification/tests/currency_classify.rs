use vaak_core::currency::{
    body_has_action_prefix, classify_action, classify_action_detected, is_body_pass_whitelist,
    is_subject_pass_whitelist, ActionKind, BOUNTY_ABANDON_LOSS_PERCENT,
    BOUNTY_CLAIM_STAKE_PERCENT, BOUNTY_OBJECTION_CLAWBACK_PERCENT, EDIT_EARN_COPPER,
    EDIT_LINE_BONUS_THRESHOLD, PASS_BODY_LEN_THRESHOLD,
};

#[test]
fn t_human_is_exempt() {
    assert!(matches!(
        classify_action("human:0", "edit", "anything", "edit: x", true),
        ActionKind::Exempt
    ));
}

#[test]
fn t_canonical_passing_subject_is_pass() {
    // Commit D (2026-05-24): replaces t_short_status_is_pass — the bare
    // body-length short-circuit is gone. PASS qualifier now requires
    // subject + body BOTH in whitelist. Canonical subject="passing"
    // with empty body classifies PASS.
    assert!(matches!(
        classify_action("dev:0", "status", "passing", "", false),
        ActionKind::Pass
    ));
}

#[test]
fn t_commit_d_anti_pattern_passing_subject_substantive_body_is_speak() {
    // Architect msg 180 RULING 3 killer case: subject="passing"
    // (whitelisted) + body="No add. Standing by for human restart."
    // (NOT whitelisted) → joint AND fails → falls through to SPEAK.
    // Pre-Commit D this classified PASS under the body<100 short-circuit;
    // post-Commit D the substantive body is correctly priced.
    // Replaces t18_pass_body_beats_edit_subject (premise invalid under
    // joint AND — subject "[edit]" is not in the pass whitelist, so the
    // old "Pass shadows Edit" nuance no longer applies).
    assert!(matches!(
        classify_action(
            "dev:0",
            "status",
            "passing",
            "No add. Standing by for human restart.",
            false
        ),
        ActionKind::Speak
    ));
}

#[test]
fn t1_edit_explicit_type() {
    assert!(matches!(
        classify_action("dev:0", "edit", "fix race", "a sufficiently long body here", false),
        ActionKind::Edit
    ));
}

#[test]
fn t2_edit_subject_prefix() {
    // Body MUST exceed PASS_BODY_LEN_THRESHOLD (100), else a status msg
    // classifies Pass (short) before the Edit-subject arm. (Nuance found
    // by the executed slate; pinned separately in the test below.)
    let long_body = "this is a deliberately long edit description body that exceeds one hundred characters so the short-status pass rule does not shadow the edit-subject detection";
    assert!(long_body.chars().count() >= PASS_BODY_LEN_THRESHOLD);
    assert!(matches!(
        classify_action("dev:0", "status", "[edit] fix", long_body, false),
        ActionKind::Edit
    ));
}

#[test]
fn t17_edit_body_prefix() {
    let long_body = "edit: this is a deliberately long edit body that exceeds one hundred characters so it is not treated as a short status pass and reaches the edit-prefix detection arm";
    assert!(long_body.chars().count() >= PASS_BODY_LEN_THRESHOLD);
    assert!(matches!(
        classify_action("dev:0", "status", "ack", long_body, false),
        ActionKind::Edit
    ));
}

#[test]
fn t_commit_d_short_body_edit_subject_classifies_edit() {
    // Post-Commit D (architect msg 180 RULING 3): a status msg with
    // subject="[edit] fix" + short body NOW classifies Edit, not Pass.
    // Reason: subject "[edit] fix" is NOT in the PASS subject whitelist
    // ({empty, pass, passing, pass., passing.}) → joint AND fails → falls
    // through to the Edit arm, which fires on `subject.starts_with("[edit]")`.
    // Pre-Commit D this classified Pass under the body<100 short-circuit;
    // the old nuance ("body must be long for Edit subject to win on
    // type=status") is gone — length is not signal under joint AND.
    // The reliable Edit path remains explicit type="edit" (t1), which
    // skips the Pass arm entirely regardless.
    assert!(matches!(
        classify_action("dev:0", "status", "[edit] fix", "short body", false),
        ActionKind::Edit
    ));
}

#[test]
fn t3_test_with_resolved_link() {
    assert!(matches!(
        classify_action("dev:0", "test", "x", "certifies fix #5", true),
        ActionKind::Test
    ));
}

#[test]
fn t4_orphan_test_downgrades_to_speak() {
    // type=test but resolved_to_edit=false → not a real certification → Speak.
    assert!(matches!(
        classify_action("dev:0", "test", "x", "certifies fix #5", false),
        ActionKind::Speak
    ));
}

#[test]
fn t18_edit_beats_test_precedence() {
    // A message matching BOTH edit and test shapes → Edit wins (checked first).
    assert!(matches!(
        classify_action("dev:0", "edit", "[test]", "test: and edit both", true),
        ActionKind::Edit
    ));
}

#[test]
fn t_speak_fallback() {
    assert!(matches!(
        classify_action("dev:0", "review", "topic", "a normal substantive review message body", false),
        ActionKind::Speak
    ));
}

#[test]
fn t_detected_edit_beats_short_status_pass() {
    // The bug we are fixing: agent edits files then sends a terse status.
    // Without detection this is Pass (+1); with detection it is Edit.
    assert!(matches!(
        classify_action_detected("dev:0", "status", "done", "done", false, true),
        ActionKind::Edit
    ));
}

#[test]
fn t_detected_edit_beats_pass_body() {
    // body starts "pass" → classify_action alone returns Pass; detection
    // overrides because real file writes happened.
    assert!(matches!(
        classify_action_detected("dev:0", "status", "passing", "pass", false, true),
        ActionKind::Edit
    ));
}

#[test]
fn t_no_detection_falls_through_to_classify_action() {
    // has_pending_edit=false → identical to classify_action.
    // Post-Commit D (2026-05-24): ("done", "done") is NOT a canonical
    // pass shape — subject "done" fails subject_whitelist, body "done"
    // fails body_whitelist (only "pass"/"passing"/"read msg..." patterns
    // qualify). So this falls through to SPEAK, not PASS. Pre-Commit D
    // this returned PASS via the body<100 short-circuit. The intent of
    // the test — proving has_pending_edit=false drops back to the
    // underlying classify_action result — is preserved by asserting on
    // SPEAK, the current correct classification for this shape.
    assert!(matches!(
        classify_action_detected("dev:0", "status", "done", "done", false, false),
        ActionKind::Speak
    ));
}

#[test]
fn t_detected_edit_ignored_for_human() {
    // A stray marker must never reclassify a human send away from Exempt.
    assert!(matches!(
        classify_action_detected("human:0", "status", "done", "done", false, true),
        ActionKind::Exempt
    ));
}

#[test]
fn t_edit_line_bonus_math() {
    // Matches the human's "+75 edit (150 lines)" example.
    let earn = |lines: u64| EDIT_EARN_COPPER + lines.saturating_sub(EDIT_LINE_BONUS_THRESHOLD) as i64;
    assert_eq!(earn(150), 75); // 25 + (150-100)
    assert_eq!(earn(100), 25); // at threshold → base only
    assert_eq!(earn(40), 25);  // below threshold → base only (saturating)
    assert_eq!(earn(0), 25);   // self-tagged edit w/ no marker → base only
}

#[test]
fn t_prefix_no_false_positive_on_editor() {
    // "editor: ..." must NOT match the "edit" action prefix.
    assert!(!body_has_action_prefix("editor: refactor", "edit"));
}

#[test]
fn t_prefix_matches_dash_separator() {
    assert!(body_has_action_prefix("edit - fix it", "edit"));
}

#[test]
fn t_prefix_requires_trailing_space() {
    // "edit:x" (no space after separator) must NOT match.
    assert!(!body_has_action_prefix("edit:x", "edit"));
}

#[test]
fn t4_bounty_stake_math() {
    assert_eq!(2000u64 * BOUNTY_CLAIM_STAKE_PERCENT / 100, 200);
    assert_eq!(999u64 * BOUNTY_CLAIM_STAKE_PERCENT / 100, 99);
    assert_eq!(1u64 * BOUNTY_CLAIM_STAKE_PERCENT / 100, 0); // <10c → 0 stake (documented)
}

#[test]
fn t_bounty_abandon_half() {
    assert_eq!(200u64 * BOUNTY_ABANDON_LOSS_PERCENT / 100, 100);
}

#[test]
fn t_bounty_objection_clawback_90pct() {
    assert_eq!(2000u64 * BOUNTY_OBJECTION_CLAWBACK_PERCENT / 100, 1800);
}

#[test]
fn t_commit_d_subject_whitelist_unit() {
    assert!(is_subject_pass_whitelist(""));
    assert!(is_subject_pass_whitelist("passing"));
    assert!(is_subject_pass_whitelist("Passing"));
    assert!(is_subject_pass_whitelist("PASSING"));
    assert!(is_subject_pass_whitelist("pass"));
    assert!(is_subject_pass_whitelist("pass."));
    assert!(is_subject_pass_whitelist("passing."));
    assert!(is_subject_pass_whitelist("  passing  ")); // trimmed
    // Substantive subjects must NOT be whitelisted.
    assert!(!is_subject_pass_whitelist("passing the mic"));
    assert!(!is_subject_pass_whitelist("status update"));
    assert!(!is_subject_pass_whitelist("[edit] fix"));
    assert!(!is_subject_pass_whitelist("s"));
    assert!(!is_subject_pass_whitelist("re: topic"));
}

#[test]
fn t_commit_d_body_whitelist_unit() {
    assert!(is_body_pass_whitelist(""));
    assert!(is_body_pass_whitelist("pass"));
    assert!(is_body_pass_whitelist("Pass."));
    assert!(is_body_pass_whitelist("passing"));
    assert!(is_body_pass_whitelist("passing."));
    assert!(is_body_pass_whitelist("PASSING."));
    // Canonical "Read msg <N>...passing." pattern.
    assert!(is_body_pass_whitelist("Read msg 162 from architect:0. Passing."));
    // Canonical "Read msg <N>...no add from <lens>-lane." pattern.
    assert!(is_body_pass_whitelist(
        "Read msg 162 from architect:0. No add from developer-lane."
    ));
    assert!(is_body_pass_whitelist(
        "Read msg 100 from x. No add on test-lane."
    ));
    // Anti-pattern bodies must NOT be whitelisted.
    assert!(!is_body_pass_whitelist("No add. Standing by for human restart."));
    assert!(!is_body_pass_whitelist("Wrote project_X. Standing by."));
    assert!(!is_body_pass_whitelist("alive"));
    assert!(!is_body_pass_whitelist("agreed"));
    assert!(!is_body_pass_whitelist("ok"));
    // "Read msg" without canonical tail → SPEAK.
    assert!(!is_body_pass_whitelist(
        "Read msg 5 from x. Disagree with conclusion."
    ));
}

#[test]
fn t_commit_d_canonical_pass_shapes() {
    // ("passing", "") → PASS
    assert!(matches!(
        classify_action("dev:0", "status", "passing", "", false),
        ActionKind::Pass
    ));
    // ("", "Pass.") → PASS
    assert!(matches!(
        classify_action("dev:0", "status", "", "Pass.", false),
        ActionKind::Pass
    ));
    // ("passing", "Read msg 162 from architect:0. No add from developer-lane.") → PASS
    assert!(matches!(
        classify_action(
            "dev:0",
            "status",
            "passing",
            "Read msg 162 from architect:0. No add from developer-lane.",
            false
        ),
        ActionKind::Pass
    ));
    // ("", "") — degenerate both-empty case → PASS (whitelist coverage).
    assert!(matches!(
        classify_action("dev:0", "status", "", "", false),
        ActionKind::Pass
    ));
}

#[test]
fn t_commit_d_anti_pattern_substantive_status_is_speak() {
    // tester msg 147 fixture: SPEAK-class cases that escape the new
    // whitelist (substantive bodies fail body_whitelist).
    assert!(matches!(
        classify_action(
            "dev:0",
            "status",
            "passing",
            "Wrote project_X. Standing by.",
            false
        ),
        ActionKind::Speak
    ));
    assert!(matches!(
        classify_action("dev:0", "status", "status", "alive", false),
        ActionKind::Speak
    ));
    assert!(matches!(
        classify_action("dev:0", "status", "tester:0 active", "", false),
        ActionKind::Speak
    ));
    assert!(matches!(
        classify_action("dev:0", "status", "re: topic", "agreed", false),
        ActionKind::Speak
    ));
}

#[test]
fn t_commit_d_msg_110_113_115_anti_pattern_is_speak() {
    // The killer case architect msg 180 used to invalidate evil-arch's
    // option (ii). subject="passing" (whitelisted) but
    // body="No add. Standing by for human restart." (NOT whitelisted)
    // → joint AND fails → SPEAK. Under the pre-Commit D rule, this
    // classified PASS via the body<100 short-circuit; Commit D closes
    // the loophole.
    assert!(matches!(
        classify_action(
            "dev:0",
            "status",
            "passing",
            "No add. Standing by for human restart.",
            false
        ),
        ActionKind::Speak
    ));
}

#[test]
fn t_commit_d_edit_arm_still_fires_when_pass_fails() {
    // Regression guard: when joint AND fails, Edit/Test arms still
    // fire correctly. status + "[edit] fix" subject → not in subject
    // whitelist → falls through to Edit arm.
    assert!(matches!(
        classify_action(
            "dev:0",
            "status",
            "[edit] fix",
            "real edit description with enough body",
            false
        ),
        ActionKind::Edit
    ));
    // Speak fallback when nothing matches any arm.
    assert!(matches!(
        classify_action("dev:0", "review", "thoughts", "long review body", false),
        ActionKind::Speak
    ));
}
