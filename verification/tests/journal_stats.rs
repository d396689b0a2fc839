use scdesk::journal::{keeps_scan_excursions, screenshot_file_name, wants_scid_scan};
use scdesk::stats::{lcg_next, sample_index, sample_seed, sorted_distinct};
use scdesk::zones::{hour_in_tz, parse_tz};

#[test]
fn distinct_days_in_order() {
    let days: Vec<String> = ["2026-08-03", "2026-08-01", "2026-08-03", "2026-07-31"]
        .iter()
        .map(|s| s.to_string())
        .collect();
    assert_eq!(sorted_distinct(&days), vec!["2026-07-31", "2026-08-01", "2026-08-03"]);
    assert!(sorted_distinct(&Vec::new()).is_empty());
}

#[test]
fn resampling_stream_matches_lcg() {
    let s = sample_seed(2);
    assert_eq!(s, 0xC0FFEE ^ 2);
    let next = lcg_next(s);
    assert_eq!(next, s.wrapping_mul(6364136223846793005).wrapping_add(1));
    assert_eq!(lcg_next(u64::MAX), u64::MAX.wrapping_mul(6364136223846793005).wrapping_add(1));
    assert_eq!(sample_index(next, 7), ((next >> 33) as usize) % 7);
    assert_eq!(sample_index(u64::MAX, 1), 0);
}

#[test]
fn scan_and_screenshot_rules() {
    let scid = "scid".to_string();
    let other = "ndjson".to_string();
    assert!(keeps_scan_excursions(Some(&scid)));
    assert!(!keeps_scan_excursions(Some(&other)));
    assert!(!keeps_scan_excursions(None));
    assert!(wants_scid_scan(5, None));
    assert!(!wants_scid_scan(5, Some(&scid)));
    assert!(!wants_scid_scan(0, None));
    assert_eq!(screenshot_file_name("NQ", "2026-08-01"), "NQ_20260801.png");
}

#[test]
fn zone_names_fall_back_to_chicago() {
    assert_eq!(parse_tz("America/New_York"), chrono_tz::America::New_York);
    assert_eq!(parse_tz("Europe/London"), chrono_tz::Europe::London);
    assert_eq!(parse_tz("Nowhere/Else"), chrono_tz::America::Chicago);
    assert_eq!(parse_tz(""), chrono_tz::America::Chicago);
}

#[test]
fn hour_is_local_not_utc() {
    // 2026-08-01 15:00:00 UTC is 10:00 in Chicago (CDT) and 11:00 in New York (EDT).
    let ms: i64 = 1_785_596_400_000;
    assert_eq!(hour_in_tz(ms, parse_tz("America/Chicago")), 10);
    assert_eq!(hour_in_tz(ms, parse_tz("America/New_York")), 11);
    assert_eq!(hour_in_tz(ms, parse_tz("UTC")), 15);
    // 2026-01-15 15:00:00 UTC is 09:00 in Chicago (CST).
    assert_eq!(hour_in_tz(1_768_489_200_000, parse_tz("America/Chicago")), 9);
    // Instants chrono cannot represent read as hour 0.
    assert_eq!(hour_in_tz(i64::MAX, parse_tz("America/Chicago")), 0);
    assert_eq!(hour_in_tz(i64::MIN, parse_tz("UTC")), 0);
}
