use vaak_core::launcher::{build_join_prompt, parse_iso_to_secs};

#[test]
fn parse_iso_to_secs_handles_known_recent_timestamp() {
    // 2026-04-17T00:44:17Z is from real sessions.json output during the
    // session that triggered this PR. Parsed value should be a positive
    // u64; we don't assert exact since UNIX_EPOCH math depends on locale
    // settings on Windows, but cross-check that round-trip via the
    // current clock keeps parser+now within 5-year sanity bounds.
    let result = parse_iso_to_secs("2026-04-17T00:44:17Z");
    assert!(result.is_some(), "should parse the heartbeat shape");
    let secs = result.unwrap();
    // Reasonable sanity: between 2020 (1577836800) and 2050 (2524608000)
    assert!(secs > 1_577_836_800 && secs < 2_524_608_000,
            "epoch should land in [2020, 2050], got {}", secs);
}

#[test]
fn parse_iso_to_secs_rejects_short_string() {
    assert!(parse_iso_to_secs("").is_none());
    assert!(parse_iso_to_secs("2026-04-17").is_none());
    assert!(parse_iso_to_secs("not-a-date").is_none());
}

#[test]
fn parse_iso_to_secs_returns_increasing_for_later_times() {
    // Ordering test — if A is later than B, parse(A) > parse(B).
    // Catches off-by-one or month/day swap bugs.
    let earlier = parse_iso_to_secs("2026-04-17T00:00:00Z").unwrap();
    let later = parse_iso_to_secs("2026-04-17T00:44:17Z").unwrap();
    let next_day = parse_iso_to_secs("2026-04-18T00:00:00Z").unwrap();
    assert!(later > earlier, "later time should yield larger epoch");
    assert!(next_day > later, "next day should yield larger epoch");
    assert_eq!(later - earlier, 44 * 60 + 17, "44m17s difference");
}

#[test]
fn test_build_join_prompt_contains_role() {
    let prompt = build_join_prompt("developer");
    assert!(prompt.contains("developer"), "prompt should contain role name");
    assert!(prompt.contains("project_join"), "prompt should mention project_join");
    assert!(prompt.contains("project_wait"), "prompt should mention project_wait");
}

#[test]
fn test_build_join_prompt_different_roles() {
    let architect = build_join_prompt("architect");
    let tester = build_join_prompt("tester");
    assert!(architect.contains("architect"));
    assert!(tester.contains("tester"));
    assert_ne!(architect, tester, "different roles should produce different prompts");
}

#[test]
fn test_build_join_prompt_special_chars_in_role() {
    let prompt = build_join_prompt("evil-architect");
    assert!(prompt.contains("evil-architect"));
}
