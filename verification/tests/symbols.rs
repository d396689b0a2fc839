use scdesk::contracts::{
    canonical_root, extract_listed, is_month, match_known_prefix, parse_symbol, spec_for_root,
    specs, strip_month_year,
};

fn chars(s: &str) -> Vec<char> {
    s.chars().collect()
}

fn text(v: &[char]) -> String {
    v.iter().collect()
}

fn dollars(cents: Option<u64>) -> Option<f64> {
    cents.map(|c| c as f64 / 100.0)
}

#[test]
fn known_aliases_from_live_journal() {
    let cases: &[(&str, &str, bool, f64)] = &[
        ("ESU26_FUT_CME", "ES", false, 12.50),
        ("ESU6.CME", "ES", false, 12.50),
        ("F.US.ENQU26", "NQ", false, 5.00),
        ("F.US.MNQU26", "NQ", true, 0.50),
        ("GCZ6.COMEX", "GC", false, 10.00),
        ("MESU26_FUT_CME", "ES", true, 1.25),
        ("MNQU26_FUT_CME", "NQ", true, 0.50),
        ("MNQU6.CME", "NQ", true, 0.50),
        ("NKDU6.CME", "NKD", false, 5.00),
        ("NQ-202609-CME", "NQ", false, 5.00),
        ("NQU26_FUT_CME", "NQ", false, 5.00),
        ("NQU6.CME", "NQ", false, 5.00),
    ];
    for (raw, root, micro, cpt) in cases {
        let p = parse_symbol(raw);
        assert_eq!(p.root, *root, "{raw}");
        assert_eq!(p.is_micro, *micro, "{raw}");
        assert_eq!(dollars(p.cents_per_tick), Some(*cpt), "{raw}");
        assert!(p.tick_size_hundredths.is_some(), "{raw}");
    }
}

#[test]
fn unknown_1oz_does_not_panic() {
    let p = parse_symbol("1OZZ26_FUT_CME");
    assert_eq!(p.listed, "1OZ");
    assert!(p.cents_per_tick.is_none());
}

#[test]
fn listed_product_keeps_micro_code() {
    let p = parse_symbol("  mesz25.cme ");
    assert_eq!(p.raw, "  mesz25.cme ");
    assert_eq!(p.listed, "MES");
    assert_eq!(p.root, "ES");
    assert!(p.is_micro);
    assert_eq!(p.tick_size_hundredths, Some(25));
    assert_eq!(p.cents_per_tick, Some(125));
}

#[test]
fn venue_words_are_skipped() {
    assert_eq!(text(&extract_listed("CME.NQU6")), "NQ");
    assert_eq!(text(&extract_listed("FUT_CBOT_YMZ5")), "YM");
    assert_eq!(text(&extract_listed("F.US.M2KH26")), "M2K");
}

#[test]
fn longest_known_prefix_wins() {
    assert_eq!(match_known_prefix(&chars("MNQU6")).map(|v| text(&v)), Some("MNQ".to_string()));
    assert_eq!(match_known_prefix(&chars("ENQH6")).map(|v| text(&v)), Some("ENQ".to_string()));
    assert_eq!(match_known_prefix(&chars("RTYZ5")).map(|v| text(&v)), Some("RTY".to_string()));
    assert_eq!(match_known_prefix(&chars("ZBU6")), None);
}

#[test]
fn month_and_year_are_stripped() {
    assert_eq!(text(&strip_month_year(&chars("ZBU26"))), "ZB");
    assert_eq!(text(&strip_month_year(&chars("ZBU6"))), "ZB");
    assert_eq!(text(&strip_month_year(&chars("ZB6"))), "ZB6");
    assert_eq!(text(&strip_month_year(&chars("U6"))), "U6");
    assert!(is_month('Z'));
    assert!(!is_month('A'));
}

#[test]
fn aliases_map_to_cme_roots() {
    let (root, micro) = canonical_root(&chars("ep"));
    assert_eq!(text(&root), "ES");
    assert!(!micro);
    let (root, micro) = canonical_root(&chars("MGC"));
    assert_eq!(text(&root), "GC");
    assert!(micro);
    let (root, micro) = canonical_root(&chars("zb"));
    assert_eq!(text(&root), "ZB");
    assert!(!micro);
}

#[test]
fn spec_lookup_ignores_case() {
    let s = spec_for_root("nq").unwrap();
    assert_eq!(s.root, "NQ");
    assert_eq!(s.micro_root, Some("MNQ"));
    assert_eq!(s.cents_per_tick, 500);
    assert!(spec_for_root("MNQ").is_none());
    let nkd = spec_for_root("NKD").unwrap();
    assert_eq!(nkd.micro_cents_per_tick, None);
    assert_eq!(specs().len(), 7);
}
