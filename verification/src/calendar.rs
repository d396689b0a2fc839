//! Week-ahead economic calendar: event timestamps, macro classification,
//! time ordering, the FMP actuals merge, and the strip of upcoming events.
//! The JSON bodies are read by the caller into [`FfRow`] and [`FmpRow`].

use vstd::prelude::*;
use crate::dates::{offset_datetime_secs, parse_offset_secs, parse_rfc3339_secs, rfc3339_secs};
use crate::quotes::QuoteError;
use crate::text::{
    chars_of, contains_chars, contains_seq, eq_chars, lower_ascii, lower_seq, push_all,
    text_from_chars, upper_ascii, upper_seq,
};

verus! {

pub struct CalEvent {
    pub title: String,
    pub country: String,
    pub ts: i64,
    pub impact: String,
    pub forecast: String,
    pub previous: String,
    pub actual: String,
    pub is_macro: bool,
}

impl Clone for CalEvent {
    fn clone(&self) -> (r: Self)
        ensures
            r == *self,
    {
        CalEvent {
            title: self.title.clone(),
            country: self.country.clone(),
            ts: self.ts,
            impact: self.impact.clone(),
            forecast: self.forecast.clone(),
            previous: self.previous.clone(),
            actual: self.actual.clone(),
            is_macro: self.is_macro,
        }
    }
}

pub ghost struct CalEventView {
    pub title: Seq<char>,
    pub country: Seq<char>,
    pub ts: i64,
    pub impact: Seq<char>,
    pub forecast: Seq<char>,
    pub previous: Seq<char>,
    pub actual: Seq<char>,
    pub is_macro: bool,
}

impl View for CalEvent {
    type V = CalEventView;

    open spec fn view(&self) -> CalEventView {
        CalEventView {
            title: self.title@,
            country: self.country@,
            ts: self.ts,
            impact: self.impact@,
            forecast: self.forecast@,
            previous: self.previous@,
            actual: self.actual@,
            is_macro: self.is_macro,
        }
    }
}

pub open spec fn ev_views(s: Seq<CalEvent>) -> Seq<CalEventView> {
    Seq::new(s.len(), |i: int| s[i]@)
}

/// A Forex Factory row as read from JSON.
pub struct FfRow {
    pub title: String,
    pub country: String,
    pub date: String,
    pub impact: String,
    pub forecast: String,
    pub previous: String,
    pub actual: String,
}

/// An FMP economic-calendar row as read from JSON; `actual` holds the text
/// of a string or number value, `None` for anything else.
pub struct FmpRow {
    pub event: String,
    pub title: String,
    pub country: String,
    pub date: String,
    pub impact: String,
    pub forecast: String,
    pub previous: String,
    pub actual: Option<String>,
}

// ------------------------------------------------------------ classification

pub open spec fn is_macro_spec(title: Seq<char>, country: Seq<char>) -> bool {
    let c = upper_seq(country);
    let t = upper_seq(title);
    (c == "USD"@ || c == "US"@) && (contains_seq(t, "FOMC"@) || contains_seq(t, "FED INTEREST"@)
        || contains_seq(t, "FEDERAL FUNDS"@) || contains_seq(t, "CPI"@) || contains_seq(
        t,
        "NON-FARM"@,
    ) || contains_seq(t, "NONFARM"@) || contains_seq(t, "NFP"@) || t == "UNEMPLOYMENT RATE"@)
}

/// A release is a macro event exactly when its country is the US (`USD` or
/// `US`, any ASCII case) and its upper-cased title contains one of FOMC, FED
/// INTEREST, FEDERAL FUNDS, CPI, NON-FARM, NONFARM or NFP, or is
/// UNEMPLOYMENT RATE.
pub proof fn lemma_macro_keywords(title: Seq<char>, country: Seq<char>)
    ensures
        ({
            let us = upper_seq(country) == "USD"@ || upper_seq(country) == "US"@;
            let t = upper_seq(title);
            &&& !us ==> !is_macro_spec(title, country)
            &&& us && contains_seq(t, "FOMC"@) ==> is_macro_spec(title, country)
            &&& us && contains_seq(t, "FED INTEREST"@) ==> is_macro_spec(title, country)
            &&& us && contains_seq(t, "FEDERAL FUNDS"@) ==> is_macro_spec(title, country)
            &&& us && contains_seq(t, "CPI"@) ==> is_macro_spec(title, country)
            &&& us && contains_seq(t, "NON-FARM"@) ==> is_macro_spec(title, country)
            &&& us && contains_seq(t, "NONFARM"@) ==> is_macro_spec(title, country)
            &&& us && contains_seq(t, "NFP"@) ==> is_macro_spec(title, country)
            &&& us && t == "UNEMPLOYMENT RATE"@ ==> is_macro_spec(title, country)
            &&& is_macro_spec(title, country) ==> us && (contains_seq(t, "FOMC"@) || contains_seq(
                t,
                "FED INTEREST"@,
            ) || contains_seq(t, "FEDERAL FUNDS"@) || contains_seq(t, "CPI"@) || contains_seq(
                t,
                "NON-FARM"@,
            ) || contains_seq(t, "NONFARM"@) || contains_seq(t, "NFP"@) || t
                == "UNEMPLOYMENT RATE"@)
        }),
{
}

/// A US FOMC, Fed funds, CPI, payrolls or unemployment-rate release.
pub fn is_macro_event(title: &str, country: &str) -> (b: bool)
    ensures
        b == is_macro_spec(title@, country@),
        !(upper_seq(country@) == "USD"@ || upper_seq(country@) == "US"@) ==> !b,
        (upper_seq(country@) == "USD"@ || upper_seq(country@) == "US"@) ==> {
            &&& contains_seq(upper_seq(title@), "FOMC"@) ==> b
            &&& contains_seq(upper_seq(title@), "FED INTEREST"@) ==> b
            &&& contains_seq(upper_seq(title@), "FEDERAL FUNDS"@) ==> b
            &&& contains_seq(upper_seq(title@), "CPI"@) ==> b
            &&& contains_seq(upper_seq(title@), "NON-FARM"@) ==> b
            &&& contains_seq(upper_seq(title@), "NONFARM"@) ==> b
            &&& contains_seq(upper_seq(title@), "NFP"@) ==> b
            &&& upper_seq(title@) == "UNEMPLOYMENT RATE"@ ==> b
        },
{
    proof {
        lemma_macro_keywords(title@, country@);
    }
    let c = upper_ascii(&chars_of(country));
    if !eq_chars(&c, &chars_of("USD")) && !eq_chars(&c, &chars_of("US")) {
        return false;
    }
    let t = upper_ascii(&chars_of(title));
    contains_chars(&t, &chars_of("FOMC")) || contains_chars(&t, &chars_of("FED INTEREST"))
        || contains_chars(&t, &chars_of("FEDERAL FUNDS")) || contains_chars(&t, &chars_of("CPI"))
        || contains_chars(&t, &chars_of("NON-FARM")) || contains_chars(&t, &chars_of("NONFARM"))
        || contains_chars(&t, &chars_of("NFP")) || eq_chars(&t, &chars_of("UNEMPLOYMENT RATE"))
}

/// One title contains the other, ignoring ASCII case.
pub open spec fn titles_close_spec(a: Seq<char>, b: Seq<char>) -> bool {
    contains_seq(upper_seq(a), upper_seq(b)) || contains_seq(upper_seq(b), upper_seq(a))
}

/// Title closeness is symmetric, and a title is close to any title that its
/// upper-cased form contains or that contains it.
pub proof fn lemma_titles_close(a: Seq<char>, b: Seq<char>)
    ensures
        titles_close_spec(a, b) == titles_close_spec(b, a),
        contains_seq(upper_seq(a), upper_seq(b)) ==> titles_close_spec(a, b),
        contains_seq(upper_seq(b), upper_seq(a)) ==> titles_close_spec(a, b),
        !contains_seq(upper_seq(a), upper_seq(b)) && !contains_seq(upper_seq(b), upper_seq(a))
            ==> !titles_close_spec(a, b),
{
}

pub fn titles_close(a: &str, b: &str) -> (r: bool)
    ensures
        r == titles_close_spec(a@, b@),
{
    let na = upper_ascii(&chars_of(a));
    let nb = upper_ascii(&chars_of(b));
    contains_chars(&na, &nb) || contains_chars(&nb, &na)
}

pub open spec fn high_impact(impact: Seq<char>) -> bool {
    lower_seq(impact) == "high"@
}

fn is_high(impact: &String) -> (b: bool)
    ensures
        b == high_impact(impact@),
{
    eq_chars(&lower_ascii(&chars_of(impact.as_str())), &chars_of("high"))
}

/// The first high-impact macro event at or after `now`.
pub open spec fn next_macro_index(events: Seq<CalEvent>, now: i64, from: int) -> Option<int>
    decreases events.len() - from,
{
    if from >= events.len() || from < 0 {
        None
    } else if events[from].is_macro && high_impact(events[from].impact@) && events[from].ts >= now {
        Some(from)
    } else {
        next_macro_index(events, now, from + 1)
    }
}

/// The index of the first high-impact macro event at or after `now` (in
/// list order); `None` if there is none.
pub fn next_macro_event(events: &Vec<CalEvent>, now: i64) -> (r: Option<usize>)
    ensures
        match r {
            Some(i) => next_macro_index(events@, now, 0) == Some(i as int) && i < events@.len()
                && events@[i as int].ts >= now,
            None => next_macro_index(events@, now, 0) is None,
        },
{
    let mut i: usize = 0;
    while i < events.len()
        invariant
            i <= events@.len(),
            next_macro_index(events@, now, 0) == next_macro_index(events@, now, i as int),
        decreases events@.len() - i,
    {
        let e = &events[i];
        if e.is_macro && is_high(&e.impact) && e.ts >= now {
            return Some(i);
        }
        i = i + 1;
    }
    None
}

/// Seconds from `now` to the first high-impact macro event at or after it
/// (in list order); `None` if there is none.
pub fn secs_to_next_macro(events: &Vec<CalEvent>, now: i64) -> (r: Option<i64>)
    requires
        match next_macro_index(events@, now, 0) {
            Some(k) => events@[k].ts - now <= i64::MAX,
            None => true,
        },
    ensures
        match next_macro_index(events@, now, 0) {
            Some(k) => r == Some((events@[k].ts - now) as i64),
            None => r is None,
        },
{
    match next_macro_event(events, now) {
        Some(k) => Some(events[k].ts - now),
        None => None,
    }
}

// ------------------------------------------------------------ timestamps

/// An event date: RFC 3339, else `%Y-%m-%dT%H:%M:%S%z`; the error names the date.
pub open spec fn event_ts_spec(date: Seq<char>) -> Result<i64, Seq<char>> {
    match rfc3339_secs(date) {
        Some(t) => Ok(t),
        None => match offset_datetime_secs(date, "%Y-%m-%dT%H:%M:%S%z"@) {
            Ok(t) => Ok(t),
            Err(e) => Err("calendar date "@ + date + ": "@ + e),
        },
    }
}

pub fn parse_event_ts(date: &str) -> (r: Result<i64, QuoteError>)
    ensures
        match r {
            Ok(t) => event_ts_spec(date@) == Ok::<i64, Seq<char>>(t),
            Err(QuoteError::Parse(m)) => event_ts_spec(date@) == Err::<i64, Seq<char>>(m@),
            Err(QuoteError::Network(_)) => false,
        },
{
    if let Some(t) = parse_rfc3339_secs(date) {
        return Ok(t);
    }
    match parse_offset_secs(date, "%Y-%m-%dT%H:%M:%S%z") {
        Ok(t) => Ok(t),
        Err(e) => {
            let mut m = chars_of("calendar date ");
            push_all(&mut m, &chars_of(date));
            push_all(&mut m, &chars_of(": "));
            push_all(&mut m, &chars_of(e.as_str()));
            Err(QuoteError::Parse(text_from_chars(&m)))
        },
    }
}

// ------------------------------------------------------------ time order

/// First index whose time is later than `t` (the length if none).
pub open spec fn first_after(r: Seq<CalEventView>, t: i64) -> int
    decreases r.len(),
{
    if r.len() == 0 {
        0
    } else if r[0].ts > t {
        0
    } else {
        1 + first_after(r.drop_first(), t)
    }
}

/// Stable sort by time: each event goes after every earlier one with a time
/// not later than its own.
pub open spec fn sort_by_ts(s: Seq<CalEventView>) -> Seq<CalEventView>
    decreases s.len(),
{
    if s.len() == 0 {
        Seq::empty()
    } else {
        let r = sort_by_ts(s.drop_last());
        r.insert(first_after(r, s.last().ts), s.last())
    }
}

pub open spec fn sorted_by_ts(s: Seq<CalEventView>) -> bool {
    forall|i: int, j: int| 0 <= i <= j < s.len() ==> s[i].ts <= s[j].ts
}

proof fn lemma_first_after_bounds(r: Seq<CalEventView>, t: i64)
    ensures
        0 <= first_after(r, t) <= r.len(),
        forall|k: int| 0 <= k < first_after(r, t) ==> r[k].ts <= t,
        first_after(r, t) < r.len() ==> r[first_after(r, t)].ts > t,
    decreases r.len(),
{
    if r.len() > 0 && r[0].ts <= t {
        lemma_first_after_bounds(r.drop_first(), t);
        assert forall|k: int| 0 <= k < first_after(r, t) implies r[k].ts <= t by {
            if k > 0 {
                assert(r[k] == r.drop_first()[k - 1]);
            }
        }
    }
}

/// Sorting by time gives events in non-decreasing time order, and the same events.
pub proof fn lemma_sort_by_ts_sorted(s: Seq<CalEventView>)
    ensures
        sorted_by_ts(sort_by_ts(s)),
        sort_by_ts(s).to_multiset() == s.to_multiset(),
    decreases s.len(),
{
    if s.len() > 0 {
        let r = sort_by_ts(s.drop_last());
        lemma_sort_by_ts_sorted(s.drop_last());
        let e = s.last();
        let p = first_after(r, e.ts);
        lemma_first_after_bounds(r, e.ts);
        let out = r.insert(p, e);
        assert forall|i: int, j: int| 0 <= i <= j < out.len() implies out[i].ts <= out[j].ts by {
            if i < p && j < p {
                assert(out[i] == r[i] && out[j] == r[j]);
            } else if i < p && j == p {
                assert(out[i] == r[i]);
            } else if i < p && j > p {
                assert(out[i] == r[i] && out[j] == r[j - 1]);
            } else if i == p && j == p {
            } else if i == p && j > p {
                assert(out[j] == r[j - 1]);
                assert(r[p].ts > e.ts);
                assert(r[p].ts <= r[j - 1].ts);
            } else {
                assert(out[i] == r[i - 1] && out[j] == r[j - 1]);
            }
        }
        vstd::seq_lib::to_multiset_insert::<CalEventView>(r, p, e);
        assert(s == s.drop_last().push(e));
        vstd::seq_lib::to_multiset_build::<CalEventView>(s.drop_last(), e);
    } else {
        assert(sort_by_ts(s) =~= s);
    }
}

proof fn lemma_first_after_is(r: Seq<CalEventView>, t: i64, p: int)
    requires
        0 <= p <= r.len(),
        forall|k: int| 0 <= k < p ==> r[k].ts <= t,
        p == r.len() || r[p].ts > t,
    ensures
        first_after(r, t) == p,
    decreases p,
{
    if p > 0 {
        assert forall|k: int| 0 <= k < p - 1 implies r.drop_first()[k].ts <= t by {
            assert(r.drop_first()[k] == r[k + 1]);
        }
        if p < r.len() {
            assert(r.drop_first()[p - 1] == r[p]);
        }
        lemma_first_after_is(r.drop_first(), t, p - 1);
    }
}

/// Sorts events by time, keeping the input order among equal times.
pub fn sort_events_by_ts(events: Vec<CalEvent>) -> (r: Vec<CalEvent>)
    ensures
        ev_views(r@) == sort_by_ts(ev_views(events@)),
{
    let mut out: Vec<CalEvent> = Vec::new();
    let ghost all = ev_views(events@);
    assert(all.take(0) =~= Seq::<CalEventView>::empty());
    assert(ev_views(out@) =~= Seq::<CalEventView>::empty());
    for i in 0..events.len()
        invariant
            all == ev_views(events@),
            ev_views(out@) == sort_by_ts(all.take(i as int)),
    {
        let e = events[i].clone();
        proof {
            assert(all.take(i + 1).drop_last() =~= all.take(i as int));
            assert(all.take(i + 1).last() == e@);
        }
        let mut p: usize = 0;
        while p < out.len() && out[p].ts <= e.ts
            invariant
                p <= out@.len(),
                forall|k: int| 0 <= k < p ==> ev_views(out@)[k].ts <= e.ts,
            decreases out@.len() - p,
        {
            p = p + 1;
        }
        proof {
            lemma_first_after_is(ev_views(out@), e.ts, p as int);
        }
        let ghost before = ev_views(out@);
        let ghost ev = e@;
        out.insert(p, e);
        assert(ev_views(out@) =~= before.insert(p as int, ev));
    }
    assert(all.take(all.len() as int) =~= all);
    out
}

/// Whether the strip shows an event at `now`: it is upcoming, or it is
/// high-impact and at most two hours old.
pub open spec fn on_strip(e: CalEventView, now: int) -> bool {
    e.ts >= now || (high_impact(e.impact) && e.ts >= now - 7200)
}

/// The events the strip shows, in list order.
pub open spec fn strip_candidates(s: Seq<CalEventView>, now: int) -> Seq<CalEventView>
    decreases s.len(),
{
    if s.len() == 0 {
        Seq::empty()
    } else {
        let r = strip_candidates(s.drop_last(), now);
        if on_strip(s.last(), now) {
            r.push(s.last())
        } else {
            r
        }
    }
}

/// The strip: the first `limit` events it shows.
pub open spec fn strip_spec(s: Seq<CalEventView>, now: int, limit: int) -> Seq<CalEventView> {
    let f = strip_candidates(s, now);
    f.take(if limit < f.len() { limit } else { f.len() as int })
}

proof fn lemma_candidates(s: Seq<CalEventView>, now: int)
    ensures
        strip_candidates(s, now).len() <= s.len(),
        forall|k: int| 0 <= k < strip_candidates(s, now).len() ==> {
            let e = #[trigger] strip_candidates(s, now)[k];
            e.ts >= now || (lower_seq(e.impact) == "high"@ && e.ts >= now - 7200)
        },
        forall|i: int| 0 <= i < s.len() && (s[i].ts >= now || (lower_seq(s[i].impact) == "high"@
            && s[i].ts >= now - 7200)) ==> strip_candidates(s, now).contains(#[trigger] s[i]),
    decreases s.len(),
{
    if s.len() > 0 {
        let d = s.drop_last();
        lemma_candidates(d, now);
        let r = strip_candidates(d, now);
        assert forall|i: int| 0 <= i < s.len() && (s[i].ts >= now || (lower_seq(s[i].impact)
            == "high"@ && s[i].ts >= now - 7200)) implies strip_candidates(s, now).contains(
            #[trigger] s[i],
        ) by {
            if i < s.len() - 1 {
                assert(s[i] == d[i]);
                let k = choose|k: int| 0 <= k < r.len() && r[k] == d[i];
                assert(strip_candidates(s, now)[k] == s[i]);
            } else {
                assert(strip_candidates(s, now) == r.push(s.last()));
                assert(strip_candidates(s, now)[r.len() as int] == s[i]);
            }
        }
    }
}

/// What the strip shows: at most `limit` events, each either upcoming or
/// high-impact (ASCII case ignored) and at most two hours old; and when no
/// more than `limit` events qualify, every upcoming event is shown.
pub proof fn lemma_strip_contents(s: Seq<CalEventView>, now: int, limit: int)
    requires
        limit >= 0,
    ensures
        strip_spec(s, now, limit).len() <= limit,
        forall|k: int| 0 <= k < strip_spec(s, now, limit).len() ==> {
            let e = #[trigger] strip_spec(s, now, limit)[k];
            e.ts >= now || (lower_seq(e.impact) == "high"@ && e.ts >= now - 7200)
        },
        s.len() <= limit ==> forall|i: int| 0 <= i < s.len() && s[i].ts >= now ==> strip_spec(
            s,
            now,
            limit,
        ).contains(#[trigger] s[i]),
{
    lemma_candidates(s, now);
    let f = strip_candidates(s, now);
    if s.len() <= limit {
        assert(f.take(f.len() as int) =~= f);
    }
    assert forall|k: int| 0 <= k < strip_spec(s, now, limit).len() implies {
        let e = #[trigger] strip_spec(s, now, limit)[k];
        e.ts >= now || (lower_seq(e.impact) == "high"@ && e.ts >= now - 7200)
    } by {
        assert(strip_spec(s, now, limit)[k] == f[k]);
    }
}

/// Upcoming events for the strip, plus recent high-impact ones still on the
/// clock (at most two hours old); at most `limit`, in list order.
pub fn strip_events(events: &Vec<CalEvent>, now: i64, limit: usize) -> (r: Vec<CalEvent>)
    requires
        now >= i64::MIN + 7200,
    ensures
        ev_views(r@) == strip_spec(ev_views(events@), now as int, limit as int),
{
    let start = now - 2 * 3600;
    let ghost all = ev_views(events@);
    let mut out: Vec<CalEvent> = Vec::new();
    assert(all.take(0) =~= Seq::<CalEventView>::empty());
    assert(ev_views(out@) =~= Seq::<CalEventView>::empty());
    for i in 0..events.len()
        invariant
            all == ev_views(events@),
            start == now - 7200,
            ev_views(out@) == strip_spec(all.take(i as int), now as int, limit as int),
    {
        proof {
            assert(all.take(i + 1).drop_last() =~= all.take(i as int));
            assert(all.take(i + 1).last() == events@[i as int]@);
        }
        let e = &events[i];
        let shown = e.ts >= now || (e.ts >= start && is_high(&e.impact));
        if shown && out.len() < limit {
            let ghost before = ev_views(out@);
            let c = e.clone();
            let ghost ev = c@;
            out.push(c);
            assert(ev_views(out@) =~= before.push(ev));
            assert(ev_views(out@) =~= strip_spec(all.take(i + 1), now as int, limit as int));
        } else {
            assert(ev_views(out@) =~= strip_spec(all.take(i + 1), now as int, limit as int));
        }
    }
    assert(all.take(all.len() as int) =~= all);
    out
}

// ------------------------------------------------------------ building events

/// The event a Forex Factory row gives at time `t`.
pub open spec fn ff_view(r: FfRow, t: i64) -> CalEventView {
    CalEventView {
        title: r.title@,
        country: r.country@,
        ts: t,
        impact: r.impact@,
        forecast: r.forecast@,
        previous: r.previous@,
        actual: r.actual@,
        is_macro: is_macro_spec(r.title@, r.country@),
    }
}

/// The events of Forex Factory rows in row order, or the first bad date's error.
pub open spec fn ff_events(rows: Seq<FfRow>) -> Result<Seq<CalEventView>, Seq<char>>
    decreases rows.len(),
{
    if rows.len() == 0 {
        Ok(Seq::empty())
    } else {
        match ff_events(rows.drop_last()) {
            Err(e) => Err(e),
            Ok(es) => match event_ts_spec(rows.last().date@) {
                Err(m) => Err(m),
                Ok(t) => Ok(es.push(ff_view(rows.last(), t))),
            },
        }
    }
}

fn copy_text(s: &String) -> (r: String)
    ensures
        r@ == s@,
{
    text_from_chars(&chars_of(s.as_str()))
}

/// Forex Factory rows to events sorted by time (`parse_ff_json` after the JSON).
pub fn events_from_ff_rows(rows: &Vec<FfRow>) -> (r: Result<Vec<CalEvent>, QuoteError>)
    ensures
        match r {
            Ok(v) => ff_events(rows@) matches Ok(es) && ev_views(v@) == sort_by_ts(es),
            Err(QuoteError::Parse(m)) => ff_events(rows@) == Err::<Seq<CalEventView>, Seq<char>>(m@),
            Err(QuoteError::Network(_)) => false,
        },
{
    let mut out: Vec<CalEvent> = Vec::new();
    assert(rows@.take(0) =~= Seq::<FfRow>::empty());
    assert(ev_views(out@) =~= Seq::<CalEventView>::empty());
    for i in 0..rows.len()
        invariant
            ff_events(rows@.take(i as int)) == Ok::<Seq<CalEventView>, Seq<char>>(ev_views(out@)),
    {
        let r = &rows[i];
        proof {
            assert(rows@.take(i + 1).drop_last() =~= rows@.take(i as int));
            assert(rows@.take(i + 1).last() == rows@[i as int]);
        }
        let ts = match parse_event_ts(r.date.as_str()) {
            Ok(t) => t,
            Err(e) => {
                proof {
                    lemma_ff_events_err_sticks(rows@, i + 1);
                }
                return Err(e);
            },
        };
        let ev = CalEvent {
            title: copy_text(&r.title),
            country: copy_text(&r.country),
            ts,
            impact: copy_text(&r.impact),
            forecast: copy_text(&r.forecast),
            previous: copy_text(&r.previous),
            actual: copy_text(&r.actual),
            is_macro: is_macro_event(r.title.as_str(), r.country.as_str()),
        };
        let ghost before = ev_views(out@);
        out.push(ev);
        assert(ev_views(out@) =~= before.push(ff_view(rows@[i as int], ts)));
    }
    assert(rows@.take(rows@.len() as int) =~= rows@);
    Ok(sort_events_by_ts(out))
}

/// Once a prefix of the rows fails, the whole list fails with the same error.
proof fn lemma_ff_events_err_sticks(rows: Seq<FfRow>, k: int)
    requires
        0 <= k <= rows.len(),
        ff_events(rows.take(k)) is Err,
    ensures
        ff_events(rows) == ff_events(rows.take(k)),
    decreases rows.len() - k,
{
    if k < rows.len() {
        assert(rows.take(k + 1).drop_last() =~= rows.take(k));
        lemma_ff_events_err_sticks(rows, k + 1);
    } else {
        assert(rows.take(k) =~= rows);
    }
}

/// The event an FMP row gives at time `t`: the `event` name (else `title`),
/// country `USD` when empty, and the actual text (empty when absent).
pub open spec fn fmp_view(r: FmpRow, t: i64) -> CalEventView {
    let title = if r.event@.len() == 0 {
        r.title@
    } else {
        r.event@
    };
    let country = if r.country@.len() == 0 {
        "USD"@
    } else {
        r.country@
    };
    CalEventView {
        title,
        country,
        ts: t,
        impact: r.impact@,
        forecast: r.forecast@,
        previous: r.previous@,
        actual: match r.actual {
            Some(a) => a@,
            None => Seq::empty(),
        },
        is_macro: is_macro_spec(title, country),
    }
}

/// The events of FMP rows in row order; rows with a bad date are skipped.
pub open spec fn fmp_events(rows: Seq<FmpRow>) -> Seq<CalEventView>
    decreases rows.len(),
{
    if rows.len() == 0 {
        Seq::empty()
    } else {
        let es = fmp_events(rows.drop_last());
        match event_ts_spec(rows.last().date@) {
            Ok(t) => es.push(fmp_view(rows.last(), t)),
            Err(_) => es,
        }
    }
}

/// FMP rows as the calendar when Forex Factory is down, sorted by time.
pub fn fmp_calendar_from_rows(rows: &Vec<FmpRow>) -> (r: Vec<CalEvent>)
    ensures
        ev_views(r@) == sort_by_ts(fmp_events(rows@)),
{
    let mut out: Vec<CalEvent> = Vec::new();
    assert(rows@.take(0) =~= Seq::<FmpRow>::empty());
    assert(ev_views(out@) =~= Seq::<CalEventView>::empty());
    for i in 0..rows.len()
        invariant
            fmp_events(rows@.take(i as int)) == ev_views(out@),
    {
        let r = &rows[i];
        proof {
            assert(rows@.take(i + 1).drop_last() =~= rows@.take(i as int));
            assert(rows@.take(i + 1).last() == rows@[i as int]);
        }
        if let Ok(ts) = parse_event_ts(r.date.as_str()) {
            let actual = match &r.actual {
                Some(a) => copy_text(a),
                None => String::new(),
            };
            let country = if r.country.as_str().is_empty() {
                text_from_chars(&chars_of("USD"))
            } else {
                copy_text(&r.country)
            };
            let title = if r.event.as_str().is_empty() {
                copy_text(&r.title)
            } else {
                copy_text(&r.event)
            };
            let is_macro = is_macro_event(title.as_str(), country.as_str());
            let ev = CalEvent {
                title,
                country,
                ts,
                impact: copy_text(&r.impact),
                forecast: copy_text(&r.forecast),
                previous: copy_text(&r.previous),
                actual,
                is_macro,
            };
            let ghost before = ev_views(out@);
            out.push(ev);
            assert(ev_views(out@) =~= before.push(fmp_view(rows@[i as int], ts)));
        }
    }
    assert(rows@.take(rows@.len() as int) =~= rows@);
    sort_events_by_ts(out)
}

/// The actual value and time an FMP row offers: a non-empty actual and a good date.
pub open spec fn row_actual(r: FmpRow) -> Option<(Seq<char>, i64)> {
    match r.actual {
        Some(a) => if a@.len() > 0 {
            match event_ts_spec(r.date@) {
                Ok(t) => Some((a@, t)),
                Err(_) => None,
            }
        } else {
            None
        },
        None => None,
    }
}

pub open spec fn abs_diff(a: int, b: int) -> int {
    if a >= b {
        a - b
    } else {
        b - a
    }
}

/// An event without an actual, same country (ASCII case ignored), within six
/// hours, and titles that contain one another.
pub open spec fn actual_matches(e: CalEventView, r: FmpRow, t: i64) -> bool {
    &&& e.actual.len() == 0
    &&& lower_seq(e.country) == lower_seq(r.country@)
    &&& abs_diff(e.ts as int, t as int) < 6 * 3600
    &&& titles_close_spec(e.title, r.event@)
}

pub open spec fn apply_row(evs: Seq<CalEventView>, r: FmpRow) -> Seq<CalEventView> {
    match row_actual(r) {
        None => evs,
        Some((a, t)) => Seq::new(
            evs.len(),
            |k: int|
                if actual_matches(evs[k], r, t) {
                    CalEventView { actual: a, ..evs[k] }
                } else {
                    evs[k]
                },
        ),
    }
}

pub open spec fn apply_rows(evs: Seq<CalEventView>, rows: Seq<FmpRow>) -> Seq<CalEventView>
    decreases rows.len(),
{
    if rows.len() == 0 {
        evs
    } else {
        apply_row(apply_rows(evs, rows.drop_last()), rows.last())
    }
}

/// Fills empty actuals from FMP rows (`fetch_fmp_actuals` after the request).
pub fn apply_fmp_actuals(events: &mut Vec<CalEvent>, rows: &Vec<FmpRow>)
    ensures
        ev_views(final(events)@) == apply_rows(ev_views(old(events)@), rows@),
{
    let ghost start = ev_views(events@);
    assert(rows@.take(0) =~= Seq::<FmpRow>::empty());
    for i in 0..rows.len()
        invariant
            ev_views(events@) == apply_rows(start, rows@.take(i as int)),
    {
        let row = &rows[i];
        proof {
            assert(rows@.take(i + 1).drop_last() =~= rows@.take(i as int));
            assert(rows@.take(i + 1).last() == rows@[i as int]);
        }
        let offer: Option<(String, i64)> = match &row.actual {
            Some(a) => if a.as_str().is_empty() {
                None
            } else {
                match parse_event_ts(row.date.as_str()) {
                    Ok(t) => Some((copy_text(a), t)),
                    Err(_) => None,
                }
            },
            None => None,
        };
        if let Some((actual, ts)) = offer {
            let rc = lower_ascii(&chars_of(row.country.as_str()));
            let ghost evs0 = ev_views(events@);
            let n = events.len();
            for k in 0..n
                invariant
                    n == evs0.len(),
                    events@.len() == evs0.len(),
                    rc@ == lower_seq(row.country@),
                    row_actual(*row) == Some((actual@, ts)),
                    forall|j: int|
                        0 <= j < k ==> #[trigger] ev_views(events@)[j] == (if actual_matches(
                            evs0[j],
                            *row,
                            ts,
                        ) {
                            CalEventView { actual: actual@, ..evs0[j] }
                        } else {
                            evs0[j]
                        }),
                    forall|j: int| k <= j < events@.len() ==> #[trigger] ev_views(events@)[j] == evs0[j],
            {
                let e = &events[k];
                let diff: i128 = (e.ts as i128) - (ts as i128);
                let close = -21600 < diff && diff < 21600;
                let hit = e.actual.as_str().is_empty() && eq_chars(
                    &lower_ascii(&chars_of(e.country.as_str())),
                    &rc,
                ) && close && titles_close(e.title.as_str(), row.event.as_str());
                proof {
                    assert(ev_views(events@)[k as int] == evs0[k as int]);
                    assert(hit == actual_matches(evs0[k as int], *row, ts));
                }
                let ghost prev = events@;
                if hit {
                    let mut ne = e.clone();
                    ne.actual = copy_text(&actual);
                    assert(ne@ == (CalEventView { actual: actual@, ..evs0[k as int] }));
                    events.set(k, ne);
                }
                proof {
                    assert forall|j: int| 0 <= j < events@.len() && j != k implies #[trigger] ev_views(events@)[j]
                        == ev_views(prev)[j] by {
                        assert(events@[j] == prev[j]);
                    }
                }
            }
            assert(ev_views(events@) =~= apply_row(evs0, *row));
        } else {
            assert(ev_views(events@) =~= apply_row(ev_views(events@), *row));
        }
    }
    assert(rows@.take(rows@.len() as int) =~= rows@);
}

/// FMP rows only fill empty actuals: an event that has an actual keeps it,
/// every event keeps its place, and nothing but the actual changes.
pub proof fn lemma_actuals_never_overwritten(evs: Seq<CalEventView>, rows: Seq<FmpRow>)
    ensures
        apply_rows(evs, rows).len() == evs.len(),
        forall|k: int|
            0 <= k < evs.len() && evs[k].actual.len() > 0 ==> #[trigger] apply_rows(evs, rows)[k]
                == evs[k],
        forall|k: int|
            0 <= k < evs.len() ==> (CalEventView {
                actual: evs[k].actual,
                ..#[trigger] apply_rows(evs, rows)[k]
            }) == evs[k],
    decreases rows.len(),
{
    if rows.len() > 0 {
        lemma_actuals_never_overwritten(evs, rows.drop_last());
        let prev = apply_rows(evs, rows.drop_last());
        assert forall|k: int| 0 <= k < evs.len() && evs[k].actual.len() > 0 implies #[trigger] apply_rows(evs, rows)[k]
            == evs[k] by {
            assert(prev[k] == evs[k]);
        }
        assert forall|k: int| 0 <= k < evs.len() implies (CalEventView {
            actual: evs[k].actual,
            ..#[trigger] apply_rows(evs, rows)[k]
        }) == evs[k] by {
            assert((CalEventView { actual: evs[k].actual, ..prev[k] }) == evs[k]);
        }
    }
}

} // verus!
