use vaak_core::currency::{next_dispute_id, next_escrow_id, BalancesSnapshot, OpenDisputesSnapshot};
use vaak_core::timefmt::{format_iso, parse_iso_epoch_pub};

#[test]
fn written_timestamps_read_back() {
    for secs in [0u64, 59, 86_399, 86_400, 951_782_400, 951_868_800, 1_709_164_800, 1_776_386_657, 4_102_444_799, 253_402_300_799] {
        let text = format_iso(secs);
        assert_eq!(parse_iso_epoch_pub(&text), Some(secs), "round trip of {}", text);
    }
}

#[test]
fn leap_day_and_year_end_texts() {
    assert_eq!(format_iso(951_782_400), "2000-02-29T00:00:00Z");
    assert_eq!(format_iso(4_102_444_799), "2099-12-31T23:59:59Z");
    assert_eq!(format_iso(253_402_300_800), "10000-01-01T00:00:00Z");
    assert_eq!(parse_iso_epoch_pub("10000-01-01T00:00:00Z"), Some(253_402_300_800));
}

#[test]
fn escrow_ids_count_up_and_differ() {
    let mut snap = BalancesSnapshot::new();
    let a = next_escrow_id(&mut snap);
    let b = next_escrow_id(&mut snap);
    assert_eq!(a, "esc_000000");
    assert_eq!(b, "esc_000001");
    assert_ne!(a, b);
    snap.next_escrow_id = 0xabcdef1;
    assert_eq!(next_escrow_id(&mut snap), "esc_abcdef1");
}

#[test]
fn dispute_ids_count_up() {
    let mut snap = OpenDisputesSnapshot::new();
    assert_eq!(next_dispute_id(&mut snap), "disp_000000");
    assert_eq!(next_dispute_id(&mut snap), "disp_000001");
}
