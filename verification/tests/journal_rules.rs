use scdesk::journal::{
    acsil_trade_id, close_epoch, csv_cell, default_checklist, duration_seconds, fill_side_label,
    imported_direction, is_entry_side, is_sim_account, match_filter, opens_long, parse_sc_datetime,
    parse_ts, trade_count_break, trading_day, tradeslist_direction, tradeslist_id,
    upsert_annotations, Annotations, JournalError, Session, TradeFilter, TradeKeys,
};
use scdesk::ndjson::{line_error, numbered_lines};

fn keys() -> TradeKeys {
    TradeKeys {
        id: "t-1".to_string(),
        account: "Sim101".to_string(),
        symbol_raw: "NQU6.CME".to_string(),
        symbol_root: "NQ".to_string(),
        direction: "SHORT".to_string(),
        notes: "Faded the open".to_string(),
        is_sim: true,
        is_closed: true,
        open_epoch_ms: 1_000,
    }
}

fn ann(notes: &str, tags: &str, shots: &str) -> Annotations {
    Annotations {
        notes: notes.to_string(),
        tags_json: tags.to_string(),
        shots_json: shots.to_string(),
    }
}

#[test]
fn checklist_defaults() {
    let c = default_checklist();
    assert_eq!(c.len(), 4);
    assert_eq!(c[0].id, "htf");
    assert_eq!(c[0].label, "HTF aligned");
    assert!(c.iter().all(|i| !i.checked));
    let s = Session::default();
    assert!(s.notes.is_empty() && s.mood.is_none());
}

#[test]
fn sim_accounts() {
    assert!(is_sim_account("Sim101"));
    assert!(is_sim_account("demo-7"));
    assert!(is_sim_account("PaperSIMx"));
    assert!(!is_sim_account("LIVE-1"));
    assert!(!is_sim_account("my demo"));
}

#[test]
fn trading_day_uses_chart_offset() {
    // 2023-11-14 22:13:20 UTC
    assert_eq!(trading_day(1_700_000_000_000, 0), "2023-11-14");
    assert_eq!(trading_day(1_700_000_000_000, 120), "2023-11-15");
    assert_eq!(trading_day(-1, 0), "1969-12-31");
}

#[test]
fn filters() {
    let t = keys();
    let mut f = TradeFilter::default();
    assert!(match_filter(&t, &f));
    f.exclude_sim = true;
    assert!(!match_filter(&t, &f));
    f.exclude_sim = false;
    f.query = "FADED".to_string();
    assert!(match_filter(&t, &f));
    f.query = "long".to_string();
    assert!(!match_filter(&t, &f));
    f.query = String::new();
    f.roots = vec!["ES".to_string()];
    assert!(!match_filter(&t, &f));
    f.roots = vec!["ES".to_string(), "NQ".to_string()];
    f.direction = Some(String::new());
    assert!(match_filter(&t, &f));
    f.direction = Some("LONG".to_string());
    assert!(!match_filter(&t, &f));
    f.direction = None;
    f.from_epoch_ms = Some(1_001);
    assert!(!match_filter(&t, &f));
    f.from_epoch_ms = Some(1_000);
    f.to_epoch_ms = Some(1_000);
    assert!(match_filter(&t, &f));
}

#[test]
fn csv_cells_quote_when_needed() {
    assert_eq!(csv_cell("plain"), "plain");
    assert_eq!(csv_cell("a,b"), "\"a,b\"");
    assert_eq!(csv_cell("say \"hi\""), "\"say \"\"hi\"\"\"");
    assert_eq!(csv_cell("two\nlines"), "\"two\nlines\"");
}

fn read_csv_field(f: &str) -> String {
    if f.len() >= 2 && f.starts_with('"') && f.ends_with('"') {
        f[1..f.len() - 1].replace("\"\"", "\"")
    } else {
        f.to_string()
    }
}

#[test]
fn csv_cells_read_back() {
    for s in ["plain", "a,b", "say \"hi\"", "\"", "\"\"", "x\r\ny", ""] {
        assert_eq!(read_csv_field(&csv_cell(s)), s);
    }
}

#[test]
fn trade_ids() {
    assert_eq!(tradeslist_id("NQU6.CME", 5, "SHORT", "Sim 1"), "NQU6_CME_5_SHORT_Sim 1");
    assert_eq!(acsil_trade_id("F.US/MNQ", -3, "LONG", "a b/c"), "acsil_F_US_MNQ_-3_LONG_a_b_c");
}

#[test]
fn directions() {
    assert_eq!(imported_direction("short"), "SHORT");
    assert_eq!(imported_direction("s"), "SHORT");
    assert_eq!(imported_direction("Buy"), "LONG");
    assert_eq!(tradeslist_direction("Short"), "SHORT");
    assert_eq!(tradeslist_direction("S"), "LONG");
}

#[test]
fn timestamps() {
    assert_eq!(parse_ts("1700000000"), 1_700_000_000_000);
    assert_eq!(parse_ts(" 1700000000123 "), 1_700_000_000_123);
    assert_eq!(parse_ts("2023-11-14 22:13:20"), 1_700_000_000_000);
    assert_eq!(parse_ts("2023-11-14T22:13:20"), 1_700_000_000_000);
    assert_eq!(parse_ts("garbage"), 0);
    assert_eq!(parse_sc_datetime("2023-11-14 22:13:20.5"), 1_700_000_000_500);
    assert_eq!(parse_sc_datetime("2023-11-14"), 1_699_920_000_000);
    assert_eq!(parse_sc_datetime("   "), 0);
}

#[test]
fn tombstoned_ids_stay_deleted() {
    assert!(upsert_annotations(true, None, ann("", "[]", "[]")).is_none());
    let kept = upsert_annotations(false, Some(ann("mine", "[]", "[]")), ann("", "[]", "[]")).unwrap();
    assert_eq!(kept.notes, "mine");
    let fresh = upsert_annotations(false, Some(ann("", "[]", "[]")), ann("new", "[\"a\"]", "[]")).unwrap();
    assert_eq!(fresh.notes, "new");
    assert_eq!(fresh.tags_json, "[\"a\"]");
    let tagged = upsert_annotations(false, Some(ann("", "[\"x\"]", "[]")), ann("", "[]", "[]")).unwrap();
    assert_eq!(tagged.tags_json, "[\"x\"]");
}

#[test]
fn fill_roles_and_timing() {
    assert!(opens_long(1) && opens_long(0) && !opens_long(2) && !opens_long(-1));
    assert!(is_entry_side(true, 1) && !is_entry_side(true, 2));
    assert!(is_entry_side(false, 2) && is_entry_side(false, -1) && !is_entry_side(false, 1));
    assert_eq!(fill_side_label(1), "BUY");
    assert_eq!(fill_side_label(0), "SELL");
    assert_eq!(duration_seconds(1_000, 62_999), Some(61));
    assert_eq!(duration_seconds(5, 5), None);
    assert_eq!(duration_seconds(i64::MIN, i64::MAX), Some(18_446_744_073_709_551));
    assert_eq!(close_epoch(0), None);
    assert_eq!(close_epoch(7), Some(7));
}

#[test]
fn trade_count_rule() {
    let b = trade_count_break("2026-01-02", 6, 5).unwrap();
    assert_eq!(b.date, "2026-01-02");
    assert_eq!(b.kind, "trades");
    assert_eq!(b.text, "6 trades (max 5)");
    assert!(trade_count_break("2026-01-02", 5, 5).is_none());
    assert!(trade_count_break("2026-01-02", 50, 0).is_none());
}

#[test]
fn ndjson_lines_are_numbered() {
    let text = "{\"id\":\"a\"}\r\n\n  {\"id\":\"b\"}  \n\t\n{\"id\":\"c\"}";
    let lines = numbered_lines(text);
    assert_eq!(
        lines,
        vec![
            (1, "{\"id\":\"a\"}".to_string()),
            (3, "{\"id\":\"b\"}".to_string()),
            (5, "{\"id\":\"c\"}".to_string()),
        ]
    );
    assert_eq!(line_error("fill line ", 3, "EOF"), "fill line 3: EOF");
    let e = JournalError::Parse(line_error("line ", 12, "bad"));
    assert!(matches!(e, JournalError::Parse(m) if m == "line 12: bad"));
}
