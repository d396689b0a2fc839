use scdesk::scid::{
    bisect_probe, bisect_start, bisect_step, find_scid_in, is_scid_magic, keep_curve_point,
    ole_us_to_unix_ms, parse_record, record_count, record_offset, record_phase, scan_window,
    unix_ms_to_ole_us, Bisect, RecordPhase, HEADER_SIZE, RECORD_SIZE, SCID_MAGIC,
    UNIX_EPOCH_SC_US,
};

#[test]
fn parses_40_byte_record() {
    let mut buf = [0u8; 40];
    buf[0..8].copy_from_slice(&42i64.to_le_bytes());
    buf[20..24].copy_from_slice(&100.5f32.to_le_bytes());
    buf[28..32].copy_from_slice(&7u32.to_le_bytes());
    let r = parse_record(&buf).unwrap();
    assert_eq!(r.datetime_ole, 42);
    assert!((f32::from_bits(r.close_bits) - 100.5).abs() < 1e-4);
    assert_eq!(r.volume, 7);
    assert_eq!(record_count(56 + 80), 2);
}

#[test]
fn magic_matches_header_constant() {
    let mut buf = [0u8; 4];
    buf.copy_from_slice(&SCID_MAGIC.to_le_bytes());
    assert!(is_scid_magic(&buf));
    assert_eq!(&buf, b"SCID");
    assert_eq!(HEADER_SIZE, 56);
    assert_eq!(RECORD_SIZE, 40);
}

#[test]
fn ole_unix_roundtrip() {
    assert_eq!(ole_us_to_unix_ms(unix_ms_to_ole_us(0)), 0);
    let t = 1_700_000_000_000i64;
    let back = ole_us_to_unix_ms(unix_ms_to_ole_us(t));
    assert!((back - t).abs() <= 1, "{back} vs {t}");
}

#[test]
fn find_scid_matches_prefix() {
    let names = vec!["NQU6.scid".to_string()];
    assert_eq!(find_scid_in(&names, "NQU6.CME"), Some(0));
    assert!(find_scid_in(&names, "ESU6").is_none());
}

#[test]
fn find_scid_prefers_exact_stem() {
    let names = vec![
        "NQ.scid".to_string(),
        "NQU6.dly".to_string(),
        "nqu6.SCID".to_string(),
        "NQU6-CME.scid".to_string(),
    ];
    assert_eq!(find_scid_in(&names, "nqu6"), Some(2));
    // Without an exact stem the last prefix match wins.
    let names = vec!["NQ.scid".to_string(), "NQU.scid".to_string(), "ES.scid".to_string()];
    assert_eq!(find_scid_in(&names, "NQU6"), Some(1));
}

#[test]
fn short_buffers_are_not_records() {
    assert!(parse_record(&[0u8; 39]).is_none());
    assert!(!is_scid_magic(b"SCI"));
    assert!(!is_scid_magic(b"SCIX"));
}

#[test]
fn record_count_and_offsets() {
    assert_eq!(record_count(0), 0);
    assert_eq!(record_count(56), 0);
    assert_eq!(record_count(56 + 39), 0);
    assert_eq!(record_count(56 + 40 * 3 + 7), 3);
    assert_eq!(record_offset(0), 56);
    assert_eq!(record_offset(3), 176);
}

#[test]
fn ole_epoch_is_1899_12_30() {
    assert_eq!(unix_ms_to_ole_us(0), UNIX_EPOCH_SC_US);
    assert_eq!(unix_ms_to_ole_us(1), UNIX_EPOCH_SC_US + 1000);
    // Truncation toward zero, as integer division does.
    assert_eq!(ole_us_to_unix_ms(UNIX_EPOCH_SC_US + 1999), 1);
    assert_eq!(ole_us_to_unix_ms(UNIX_EPOCH_SC_US - 1999), -1);
}

#[test]
fn scan_window_orders_bounds() {
    let w = scan_window(1_000_000, 1_015_000, 4_000);
    assert_eq!(w.start_ole, unix_ms_to_ole_us(1_000_000));
    assert_eq!(w.end_ole, unix_ms_to_ole_us(1_015_000));
    assert_eq!(w.post_ole, unix_ms_to_ole_us(1_019_000));
    // An exit before the entry is read as the entry; a negative tail as none.
    let w = scan_window(2_000, 1_000, -5);
    assert_eq!(w.end_ole, unix_ms_to_ole_us(2_000));
    assert_eq!(w.post_ole, unix_ms_to_ole_us(1_000));
    let w = scan_window(0, 10, 100);
    assert_eq!(record_phase(w.start_ole, &w), RecordPhase::InTrade);
    assert_eq!(record_phase(w.end_ole, &w), RecordPhase::InTrade);
    assert_eq!(record_phase(w.end_ole + 1, &w), RecordPhase::AfterExit);
    assert_eq!(record_phase(w.post_ole + 1, &w), RecordPhase::Past);
}

#[test]
fn bisect_finds_first_record_at_start() {
    let times: Vec<i64> = vec![1, 3, 3, 5, 8, 13];
    let start = 4;
    let mut b: Bisect = bisect_start(times.len() as u64);
    while let Some(mid) = bisect_probe(&b) {
        b = bisect_step(b, times[mid as usize], start);
    }
    assert_eq!(b.lo, 3);
    let mut b = bisect_start(times.len() as u64);
    while let Some(mid) = bisect_probe(&b) {
        b = bisect_step(b, times[mid as usize], 100);
    }
    assert_eq!(b.lo, times.len() as u64 - 1);
}

#[test]
fn curve_thins_after_400_points() {
    assert!(keep_curve_point(0, 3));
    assert!(keep_curve_point(399, 3));
    assert!(!keep_curve_point(400, 3));
    assert!(keep_curve_point(400, 16));
}
