//! The intraday execution window: regime labels, the rows it shows, and
//! whether it comes from live 5-minute data.

use vstd::prelude::*;
use crate::text::{chars_of, eq_chars};

verus! {

/// One labelled value of the execution window.
pub struct ExecMetric {
    pub name: String,
    pub value: String,
    pub note: String,
}

pub open spec fn exec_metric_view(m: ExecMetric) -> (Seq<char>, Seq<char>, Seq<char>) {
    (m.name@, m.value@, m.note@)
}

pub open spec fn exec_metric_views(v: Seq<ExecMetric>) -> Seq<(Seq<char>, Seq<char>, Seq<char>)> {
    Seq::new(v.len(), |i: int| exec_metric_view(v[i]))
}

pub open spec fn yes_no_text(v: Option<bool>) -> Seq<char> {
    match v {
        Some(true) => "yes"@,
        Some(false) => "no"@,
        None => "n/a"@,
    }
}

/// `yes`, `no` or `n/a`.
pub fn yes_no(v: Option<bool>) -> (s: String)
    ensures
        s@ == yes_no_text(v),
{
    match v {
        Some(true) => "yes".to_string(),
        Some(false) => "no".to_string(),
        None => "n/a".to_string(),
    }
}

/// The regime of a trend reading (`Some(true)`: ADX 14 at or above 25).
pub open spec fn regime_text(adx_trend: Option<bool>) -> Seq<char> {
    match adx_trend {
        Some(true) => "Trend"@,
        Some(false) => "Chop"@,
        None => "n/a"@,
    }
}

pub fn regime_label(adx_trend: Option<bool>) -> (s: &'static str)
    ensures
        s@ == regime_text(adx_trend),
{
    match adx_trend {
        Some(true) => "Trend",
        Some(false) => "Chop",
        None => "n/a",
    }
}

/// The rows shown for a regime: a trend asks for follow-through and a side
/// of VWAP; chop asks whether moves through VWAP fail.
pub open spec fn exec_rows(
    regime: Seq<char>,
    follow_through: Seq<char>,
    vs_vwap: Seq<char>,
    failed_break: Option<bool>,
    leaders_extend: Option<bool>,
    bounce_fail: Option<bool>,
    breakdowns_hold: Option<bool>,
) -> Seq<(Seq<char>, Seq<char>, Seq<char>)> {
    if regime == "Trend"@ {
        seq![
            ("follow-through"@, follow_through, "closes with session VWAP side"@),
            ("vs VWAP"@, vs_vwap, "last vs session VWAP"@),
            ("failed break"@, yes_no_text(failed_break), "poke then reverse"@),
            ("leaders extend"@, yes_no_text(leaders_extend), "sector leaders still going with SPY"@),
        ]
    } else {
        seq![
            ("bounce fail"@, yes_no_text(bounce_fail), "wick through VWAP, close back"@),
            ("breakdowns hold"@, yes_no_text(breakdowns_hold), "stayed below VWAP after losing it"@),
            ("failed break"@, yes_no_text(failed_break), "poke then reverse"@),
            ("vs VWAP"@, vs_vwap, "last vs session VWAP"@),
        ]
    }
}

fn exec_metric(name: &str, value: String, note: &str) -> (m: ExecMetric)
    ensures
        exec_metric_view(m) == (name@, value@, note@),
{
    ExecMetric { name: name.to_string(), value, note: note.to_string() }
}

/// The rows of the execution window; `follow_through` is already formatted.
pub fn exec_metrics(
    regime: &str,
    follow_through: String,
    vs_vwap: &str,
    failed_break: Option<bool>,
    leaders_extend: Option<bool>,
    bounce_fail: Option<bool>,
    breakdowns_hold: Option<bool>,
) -> (v: Vec<ExecMetric>)
    ensures
        exec_metric_views(v@) == exec_rows(
            regime@,
            follow_through@,
            vs_vwap@,
            failed_break,
            leaders_extend,
            bounce_fail,
            breakdowns_hold,
        ),
{
    let mut v: Vec<ExecMetric> = Vec::new();
    if eq_chars(&chars_of(regime), &chars_of("Trend")) {
        v.push(exec_metric("follow-through", follow_through, "closes with session VWAP side"));
        v.push(exec_metric("vs VWAP", vs_vwap.to_string(), "last vs session VWAP"));
        v.push(exec_metric("failed break", yes_no(failed_break), "poke then reverse"));
        v.push(
            exec_metric(
                "leaders extend",
                yes_no(leaders_extend),
                "sector leaders still going with SPY",
            ),
        );
    } else {
        v.push(exec_metric("bounce fail", yes_no(bounce_fail), "wick through VWAP, close back"));
        v.push(
            exec_metric(
                "breakdowns hold",
                yes_no(breakdowns_hold),
                "stayed below VWAP after losing it",
            ),
        );
        v.push(exec_metric("failed break", yes_no(failed_break), "poke then reverse"));
        v.push(exec_metric("vs VWAP", vs_vwap.to_string(), "last vs session VWAP"));
    }
    assert(exec_metric_views(v@) =~= exec_rows(
        regime@,
        follow_through@,
        vs_vwap@,
        failed_break,
        leaders_extend,
        bounce_fail,
        breakdowns_hold,
    ));
    v
}

/// The window comes from 5-minute bars and has a regime.
pub open spec fn is_live_spec(source: Seq<char>, regime: Seq<char>) -> bool {
    source == "5m"@ && regime != "n/a"@
}

pub fn exec_is_live(source: &str, regime: &str) -> (b: bool)
    ensures
        b == is_live_spec(source@, regime@),
{
    eq_chars(&chars_of(source), &chars_of("5m")) && !eq_chars(&chars_of(regime), &chars_of("n/a"))
}

} // verus!
