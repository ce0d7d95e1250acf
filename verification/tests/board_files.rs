use vaak_core::board::{board_lines, compact_plan, live_bindings_mask, retained_mask};
use vaak_core::timefmt::{format_iso, parse_iso_epoch_pub};

#[test]
fn board_lines_drop_blank_lines_and_crlf() {
    let v = board_lines("{\"a\":1}\r\n\n   \n{\"b\":2}\n");
    assert_eq!(v, vec!["{\"a\":1}".to_string(), "{\"b\":2}".to_string()]);
}

#[test]
fn board_lines_keep_last_line_without_newline() {
    assert_eq!(board_lines("x\ny"), vec!["x".to_string(), "y".to_string()]);
    assert!(board_lines("").is_empty());
    assert!(board_lines("\n\n").is_empty());
    assert_eq!(board_lines("a\r"), vec!["a\r".to_string()]);
}

fn stamp(secs: u64) -> Option<String> {
    Some(format_iso(secs))
}

#[test]
fn compact_keeps_everything_at_or_below_min_keep() {
    let stamps = vec![stamp(0), stamp(10)];
    let p = compact_plan(&stamps, 1_000_000_000, 1, 5);
    assert_eq!(p.keep, vec![true, true]);
    assert_eq!((p.kept, p.removed), (2, 0));
}

#[test]
fn compact_drops_old_messages_keeps_unparseable() {
    let now = 100 * 86400;
    let stamps = vec![stamp(10), None, Some(String::new()), stamp(now - 3600), stamp(now - 2 * 86400)];
    let p = compact_plan(&stamps, now, 1, 1);
    assert_eq!(p.keep, vec![false, true, true, true, false]);
    assert_eq!((p.kept, p.removed), (3, 2));
}

#[test]
fn compact_falls_back_to_newest_min_keep() {
    let now = 100 * 86400;
    let stamps = vec![stamp(1), stamp(2), stamp(3), stamp(4)];
    let p = compact_plan(&stamps, now, 1, 3);
    assert_eq!(p.keep, vec![false, true, true, true]);
    assert_eq!((p.kept, p.removed), (3, 1));
}

#[test]
fn compact_cutoff_is_inclusive() {
    let now = 10 * 86400;
    let stamps = vec![stamp(9 * 86400), stamp(9 * 86400 - 1)];
    let p = compact_plan(&stamps, now, 1, 0);
    assert_eq!(p.keep, vec![true, false]);
}

#[test]
fn retention_zero_keeps_all_and_window_is_inclusive() {
    let now = 50 * 86400;
    let stamps = vec![format_iso(0), format_iso(now - 86400), format_iso(now - 86400 - 1), "garbage".to_string()];
    assert_eq!(retained_mask(&stamps, now, 0), vec![true, true, true, true]);
    assert_eq!(retained_mask(&stamps, now, 1), vec![false, true, false, true]);
}

#[test]
fn live_bindings_by_heartbeat_age() {
    let now = 1_000_000;
    let hbs = vec![format_iso(now - 300), format_iso(now - 301), String::new(), format_iso(now + 50)];
    assert_eq!(live_bindings_mask(&hbs, now, 300), vec![true, false, false, true]);
}

#[test]
fn format_and_parse_agree_on_known_instant() {
    assert_eq!(format_iso(1_776_386_657), "2026-04-17T00:44:17Z");
    assert_eq!(parse_iso_epoch_pub("2026-04-17T00:44:17Z"), Some(1_776_386_657));
}
