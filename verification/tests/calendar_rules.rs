use scdesk::calendar::{
    apply_fmp_actuals, events_from_ff_rows, fmp_calendar_from_rows, is_macro_event,
    next_macro_event, parse_event_ts, secs_to_next_macro, sort_events_by_ts, strip_events, titles_close, CalEvent,
    FfRow, FmpRow,
};
use scdesk::quotes::QuoteError;

fn ff(title: &str, country: &str, date: &str, impact: &str, forecast: &str, previous: &str) -> FfRow {
    FfRow {
        title: title.to_string(),
        country: country.to_string(),
        date: date.to_string(),
        impact: impact.to_string(),
        forecast: forecast.to_string(),
        previous: previous.to_string(),
        actual: String::new(),
    }
}

fn ev(title: &str, country: &str, ts: i64) -> CalEvent {
    CalEvent {
        title: title.to_string(),
        country: country.to_string(),
        ts,
        impact: "High".to_string(),
        forecast: String::new(),
        previous: String::new(),
        actual: String::new(),
        is_macro: is_macro_event(title, country),
    }
}

fn fmp(event: &str, country: &str, date: &str, actual: Option<&str>) -> FmpRow {
    FmpRow {
        event: event.to_string(),
        title: String::new(),
        country: country.to_string(),
        date: date.to_string(),
        impact: "High".to_string(),
        forecast: String::new(),
        previous: String::new(),
        actual: actual.map(|a| a.to_string()),
    }
}

#[test]
fn parses_ff_fixture() {
    let rows = vec![
        ff("CPI m/m", "USD", "2026-08-27T12:30:00-04:00", "High", "0.2%", "0.1%"),
        ff("Core Retail Sales q/q", "NZD", "2026-08-23T18:45:00-04:00", "Low", "0.3%", "1.0%"),
    ];
    let ev = events_from_ff_rows(&rows).unwrap();
    assert_eq!(ev.len(), 2);
    assert!(ev[1].is_macro);
    assert!(!ev[0].is_macro);
    let secs = secs_to_next_macro(&ev, 0);
    assert!(secs.is_some() && secs.unwrap() > 0);
}

#[test]
fn event_times_from_both_date_forms() {
    assert_eq!(parse_event_ts("2026-08-27T12:30:00-04:00").ok(), Some(1_787_848_200));
    assert_eq!(parse_event_ts("2026-08-27T12:30:00-0400").ok(), Some(1_787_848_200));
    match parse_event_ts("next tuesday") {
        Err(QuoteError::Parse(m)) => assert!(m.starts_with("calendar date next tuesday: ")),
        _ => panic!("expected a parse error"),
    }
}

#[test]
fn bad_date_fails_the_whole_feed() {
    let rows = vec![
        ff("CPI m/m", "USD", "2026-08-27T12:30:00-04:00", "High", "", ""),
        ff("NFP", "USD", "soon", "High", "", ""),
    ];
    assert!(matches!(events_from_ff_rows(&rows), Err(QuoteError::Parse(_))));
}

#[test]
fn macro_events_are_us_fomc_cpi_payrolls() {
    assert!(is_macro_event("FOMC Statement", "usd"));
    assert!(is_macro_event("Non-Farm Employment Change", "US"));
    assert!(is_macro_event("Unemployment Rate", "USD"));
    assert!(!is_macro_event("Unemployment Rate q/q", "USD"));
    assert!(!is_macro_event("CPI y/y", "EUR"));
    assert!(titles_close("cpi", "Core CPI m/m"));
    assert!(!titles_close("PPI", "CPI"));
}

#[test]
fn next_macro_skips_past_and_minor_events() {
    let events = vec![ev("CPI", "USD", 100), ev("GDP", "USD", 500), ev("NFP", "USD", 900)];
    assert_eq!(secs_to_next_macro(&events, 50), Some(50));
    assert_eq!(secs_to_next_macro(&events, 100), Some(0));
    assert_eq!(secs_to_next_macro(&events, 101), Some(799));
    assert_eq!(secs_to_next_macro(&events, 901), None);
}

#[test]
fn strip_keeps_two_hours_back_and_limits() {
    let events = vec![
        ev("a", "USD", 0),
        ev("b", "USD", 10_000),
        ev("c", "USD", 20_000),
        ev("d", "USD", 30_000),
    ];
    let s = strip_events(&events, 12_000, 2);
    let titles: Vec<&str> = s.iter().map(|e| e.title.as_str()).collect();
    assert_eq!(titles, vec!["b", "c"]);
    assert!(strip_events(&events, 12_000, 0).is_empty());
}

#[test]
fn strip_keeps_only_high_impact_from_the_past() {
    let mut low = ev("Retail Sales", "USD", 11_900);
    low.impact = "Low".to_string();
    let mut medium = ev("PMI", "USD", 11_000);
    medium.impact = "Medium".to_string();
    let mut high = ev("CPI", "USD", 10_500);
    high.impact = "HIGH".to_string();
    let mut old_high = ev("NFP", "USD", 4_000);
    old_high.impact = "High".to_string();
    let mut upcoming_low = ev("Claims", "USD", 12_000);
    upcoming_low.impact = "Low".to_string();
    let events = vec![old_high, low, medium, high, upcoming_low];
    let s = strip_events(&events, 12_000, 10);
    let titles: Vec<&str> = s.iter().map(|e| e.title.as_str()).collect();
    assert_eq!(titles, vec!["CPI", "Claims"]);
    let s = strip_events(&events, 12_000, 1);
    assert_eq!(s.len(), 1);
    assert_eq!(s[0].title, "CPI");
}

#[test]
fn sort_is_stable_by_time() {
    let events = vec![ev("x", "USD", 5), ev("y", "USD", 1), ev("z", "USD", 5)];
    let s = sort_events_by_ts(events);
    let titles: Vec<&str> = s.iter().map(|e| e.title.as_str()).collect();
    assert_eq!(titles, vec!["y", "x", "z"]);
}

#[test]
fn fmp_rows_fill_missing_actuals() {
    let mut events = vec![ev("CPI m/m", "USD", 1_787_848_200), ev("NFP", "USD", 1_787_848_200)];
    events[1].actual = "200K".to_string();
    let rows = vec![
        fmp("Core CPI m/m", "usd", "2026-08-27T16:30:00Z", Some("0.3%")),
        fmp("NFP", "USD", "2026-08-27T16:30:00Z", Some("150K")),
        fmp("CPI", "USD", "2026-08-28T16:30:00Z", Some("9.9%")),
    ];
    apply_fmp_actuals(&mut events, &rows);
    assert_eq!(events[0].actual, "0.3%");
    assert_eq!(events[1].actual, "200K");
}

#[test]
fn fmp_calendar_defaults_country_and_title() {
    let mut row = fmp("", "", "2026-08-27T12:30:00-04:00", None);
    row.title = "CPI m/m".to_string();
    let v = fmp_calendar_from_rows(&vec![row, fmp("GDP", "EU", "bad", None)]);
    assert_eq!(v.len(), 1);
    assert_eq!(v[0].country, "USD");
    assert_eq!(v[0].title, "CPI m/m");
    assert!(v[0].is_macro);
}

#[test]
fn next_macro_is_found_before_far_events() {
    let events = vec![
        ev("GDP", "USD", 50),
        ev("CPI", "USD", 100),
        ev("FOMC Statement", "USD", i64::MAX),
    ];
    assert_eq!(next_macro_event(&events, -100), Some(1));
    // Only the chosen event's distance is computed.
    assert_eq!(secs_to_next_macro(&events, -100), Some(200));
    assert_eq!(next_macro_event(&events, 101), Some(2));
    assert_eq!(next_macro_event(&events[..1].to_vec(), 0), None);
}
