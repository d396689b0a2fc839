use scdesk::dates::{clock_reading_secs, unix_now};
use scdesk::engine::{
    keep_last_good, breadth_tally, history_symbols, symbols_to_fetch, disk_copy_usable, history_file_name, keep_score_point, needs_refetch,
    tape_rank, tape_ids, PulseSettings, CAL_DISK_SECS, CAL_MEM_SECS, OFF_TAPE_RANK,
    SCORE_HIST_SECS,
};
use scdesk::exec::{exec_is_live, exec_metrics, regime_label, yes_no};
use scdesk::quotes::{
    quotes_stale, saturating_sub_i64, urlencoding_lite, HISTORY_CACHE_SECS, SPOT_CACHE_SECS,
    STALE_AFTER_SECS,
};
use scdesk::score::{
    bias_label, decision_for, metric, size_for, vwap_quality, BiasLabel, Decision, Mode, ScoreBand, SizeRec,
};

#[test]
fn empty_quotes_are_stale() {
    assert!(quotes_stale(0, unix_now(), unix_now()));
}

#[test]
fn fresh_quotes_not_stale() {
    let now = 1_700_000_000;
    assert!(!quotes_stale(1, now, now + 10));
    assert!(quotes_stale(1, now, now + STALE_AFTER_SECS + 1));
    assert!(!quotes_stale(1, now, now + STALE_AFTER_SECS));
}

#[test]
fn stale_age_saturates() {
    assert_eq!(saturating_sub_i64(i64::MAX, -1), i64::MAX);
    assert_eq!(saturating_sub_i64(i64::MIN, 1), i64::MIN);
    assert!(quotes_stale(3, i64::MIN, i64::MAX));
    assert!(!quotes_stale(3, i64::MAX, i64::MIN));
}

#[test]
fn url_encoding_of_symbols() {
    assert_eq!(urlencoding_lite("^VIX"), "%5EVIX");
    assert_eq!(urlencoding_lite("DX-Y.NYB"), "DX-Y.NYB");
    assert_eq!(urlencoding_lite("a b/é"), "a%20b%2F%C3%A9");
}

#[test]
fn modes_read_back() {
    assert_eq!(Mode::Day.as_str(), "day");
    assert_eq!(Mode::Swing.as_str(), "swing");
    assert_eq!(Mode::parse("SWING"), Mode::Swing);
    assert_eq!(Mode::parse("s"), Mode::Swing);
    assert_eq!(Mode::parse("Day"), Mode::Day);
    assert_eq!(Mode::parse("weekly"), Mode::Day);
    for m in [Mode::Day, Mode::Swing] {
        assert_eq!(Mode::parse(m.as_str()), m);
    }
}

#[test]
fn metric_rows() {
    let m = metric("VIX", "16.00".to_string(), "lower + stable is better");
    assert_eq!(m.name, "VIX");
    assert_eq!(m.value, "16.00");
    assert_eq!(m.note, "lower + stable is better");
}

#[test]
fn vwap_quality_wants_side_in_trend() {
    let five = "5m".to_string();
    let daily = "daily".to_string();
    let at = "at".to_string();
    let above = "above".to_string();
    let na = "n/a".to_string();
    let odd = "??".to_string();
    assert_eq!(vwap_quality(Some(&five), Some(&at), false), Some(72));
    assert_eq!(vwap_quality(Some(&five), Some(&at), true), Some(48));
    assert_eq!(vwap_quality(Some(&five), Some(&above), true), Some(80));
    assert_eq!(vwap_quality(Some(&five), Some(&above), false), Some(42));
    assert_eq!(vwap_quality(Some(&five), Some(&odd), false), Some(50));
    assert_eq!(vwap_quality(Some(&five), Some(&na), false), None);
    assert_eq!(vwap_quality(Some(&five), None, false), None);
    assert_eq!(vwap_quality(Some(&daily), Some(&at), false), None);
    assert_eq!(vwap_quality(None, Some(&at), false), None);
}

#[test]
fn execution_rows_follow_regime() {
    assert_eq!(regime_label(Some(true)), "Trend");
    assert_eq!(regime_label(Some(false)), "Chop");
    assert_eq!(regime_label(None), "n/a");
    assert_eq!(yes_no(None), "n/a");
    let t = exec_metrics("Trend", "4".to_string(), "above", Some(true), None, Some(false), None);
    let names: Vec<&str> = t.iter().map(|m| m.name.as_str()).collect();
    assert_eq!(names, vec!["follow-through", "vs VWAP", "failed break", "leaders extend"]);
    assert_eq!(t[0].value, "4");
    assert_eq!(t[2].value, "yes");
    assert_eq!(t[3].value, "n/a");
    let c = exec_metrics("Chop", "4".to_string(), "at", None, None, Some(false), Some(true));
    let names: Vec<&str> = c.iter().map(|m| m.name.as_str()).collect();
    assert_eq!(names, vec!["bounce fail", "breakdowns hold", "failed break", "vs VWAP"]);
    assert_eq!(c[0].value, "no");
    assert_eq!(c[1].value, "yes");
    assert_eq!(c[3].value, "at");
    assert!(exec_is_live("5m", "Chop"));
    assert!(!exec_is_live("5m", "n/a"));
    assert!(!exec_is_live("daily", "Trend"));
}

#[test]
fn settings_default_to_day() {
    let s = PulseSettings::default();
    assert_eq!(s.mode, Mode::Day);
    assert!(s.fmp_api_key.is_empty());
}

#[test]
fn cache_ages() {
    assert!(needs_refetch(100, None, SPOT_CACHE_SECS, false));
    assert!(!needs_refetch(160, Some(100), SPOT_CACHE_SECS, false));
    assert!(needs_refetch(161, Some(100), SPOT_CACHE_SECS, false));
    assert!(needs_refetch(100, Some(100), CAL_MEM_SECS, true));
    assert!(disk_copy_usable(1_800, 0, CAL_DISK_SECS));
    assert!(!disk_copy_usable(1_801, 0, CAL_DISK_SECS));
    assert_eq!(HISTORY_CACHE_SECS, 8 * 3600);
    assert!(keep_score_point(SCORE_HIST_SECS, 0));
    assert!(!keep_score_point(SCORE_HIST_SECS + 1, 0));
    assert!(keep_score_point(0, 10));
    assert!(!keep_score_point(i64::MAX, i64::MIN));
}

#[test]
fn history_files_and_tape() {
    assert_eq!(history_file_name("^VIX"), "_VIX.json");
    assert_eq!(history_file_name("DX-Y.NYB"), "DX_Y_NYB.json");
    assert_eq!(history_file_name("BRK-B"), "BRK_B.json");
    assert_eq!(tape_ids().len(), 16);
    assert_eq!(tape_rank("SPY"), 0);
    assert_eq!(tape_rank("DXY"), 4);
    assert_eq!(tape_rank("XLC"), 15);
    assert_eq!(tape_rank("AAPL"), OFF_TAPE_RANK);
}

#[test]
fn breadth_counts() {
    assert_eq!(breadth_tally(&vec![]), (0, 0));
    assert_eq!(breadth_tally(&vec![Some(true), None, Some(false), Some(true)]), (2, 3));
}

#[test]
fn history_symbols_sorted_once() {
    let syms = history_symbols();
    assert_eq!(syms.len(), 66);
    let mut sorted = syms.clone();
    sorted.sort();
    sorted.dedup();
    assert_eq!(syms, sorted);
    assert!(syms.contains(&"^VIX".to_string()));
    assert!(syms.contains(&"BRK-B".to_string()));
    let picked = symbols_to_fetch(
        &vec!["A".to_string(), "B".to_string(), "C".to_string()],
        &vec![None, Some(100), Some(100 - 8 * 3600 - 1)],
        100,
        false,
    );
    assert_eq!(picked, vec!["A".to_string(), "C".to_string()]);
    assert_eq!(
        symbols_to_fetch(&vec!["B".to_string()], &vec![Some(100)], 100, true),
        vec!["B".to_string()]
    );
}

#[test]
fn decision_and_size_bands() {
    assert_eq!(decision_for(ScoreBand::From80, BiasLabel::Long), Decision::Yes);
    assert_eq!(decision_for(ScoreBand::From80, BiasLabel::Short), Decision::Yes);
    assert_eq!(decision_for(ScoreBand::From80, BiasLabel::Neutral), Decision::Caution);
    assert_eq!(decision_for(ScoreBand::From60, BiasLabel::Long), Decision::Caution);
    assert_eq!(decision_for(ScoreBand::From50, BiasLabel::Long), Decision::No);
    assert_eq!(size_for(ScoreBand::From80), SizeRec::Full);
    assert_eq!(size_for(ScoreBand::From70), SizeRec::ThreeQuarter);
    assert_eq!(size_for(ScoreBand::From60), SizeRec::Half);
    assert_eq!(size_for(ScoreBand::From50), SizeRec::Quarter);
    assert_eq!(size_for(ScoreBand::Under50), SizeRec::Flat);
}

#[test]
fn bias_from_votes() {
    assert_eq!(bias_label(&vec![1, 1, -1]), BiasLabel::Long);
    assert_eq!(bias_label(&vec![-1, -1, 0]), BiasLabel::Short);
    assert_eq!(bias_label(&vec![1, -1, 0]), BiasLabel::Neutral);
    assert_eq!(bias_label(&vec![1, 0, 0, 0, 0]), BiasLabel::Neutral);
    assert_eq!(bias_label(&vec![1, 0, 0, 0]), BiasLabel::Long);
    assert_eq!(bias_label(&vec![]), BiasLabel::Neutral);
}

#[test]
fn clock_readings_become_unix_seconds() {
    assert_eq!(clock_reading_secs(None), 0);
    assert_eq!(clock_reading_secs(Some(1_785_596_400)), 1_785_596_400);
    assert_eq!(clock_reading_secs(Some(u64::MAX)), -1);
}

#[test]
fn failed_fetch_keeps_last_good() {
    let mut errors = vec!["earlier".to_string()];
    let kept = keep_last_good(Some(7), Err("timeout".to_string()), &mut errors);
    assert_eq!(kept, Some(7));
    assert_eq!(errors, vec!["earlier".to_string(), "timeout".to_string()]);
    let replaced = keep_last_good(Some(7), Ok(8), &mut errors);
    assert_eq!(replaced, Some(8));
    assert_eq!(errors.len(), 2);
    let none: Option<i32> = keep_last_good(None, Err("down".to_string()), &mut errors);
    assert_eq!(none, None);
    assert_eq!(errors.last().unwrap(), "down");
}
