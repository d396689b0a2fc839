//! The decisions of the Pulse refresh cycle: which caches are still good,
//! where a symbol's history is kept, the order of the tape, the breadth
//! tally and how long score history is kept. The cycle itself (network,
//! disk) runs outside the library.

use vstd::prelude::*;
use crate::score::Mode;
use crate::text::{chars_of, eq_chars, push_all, text_from_chars};

verus! {

/// Calendar kept in memory this long.
pub const CAL_MEM_SECS: i64 = 300;

/// Calendar read back from disk while younger than this.
pub const CAL_DISK_SECS: i64 = 1800;

/// Score points kept for the sparkline.
pub const SCORE_HIST_SECS: i64 = 21600;

/// Tape position of a quote id that is not on the tape.
pub const OFF_TAPE_RANK: usize = 999;

/// Saved Pulse settings.
pub struct PulseSettings {
    pub mode: Mode,
    pub fmp_api_key: String,
}

impl Default for PulseSettings {
    fn default() -> (s: Self)
        ensures
            s.mode == Mode::Day,
            s.fmp_api_key@ == Seq::<char>::empty(),
    {
        PulseSettings { mode: Mode::Day, fmp_api_key: String::new() }
    }
}

/// A cached item fetched at `fetched_at` (none: never) is fetched again.
pub open spec fn refetch_spec(now: i64, fetched_at: Option<i64>, max_age: i64, force: bool) -> bool {
    force || match fetched_at {
        Some(t) => now - t > max_age,
        None => true,
    }
}

pub open spec fn age_fits(now: i64, fetched_at: Option<i64>) -> bool {
    match fetched_at {
        Some(t) => i64::MIN <= now - t <= i64::MAX,
        None => true,
    }
}

/// A forced refresh or a never-fetched item is always fetched; otherwise an
/// item is fetched again exactly when it is older than `max_age`.
pub proof fn lemma_refetch_rules(now: i64, fetched_at: Option<i64>, max_age: i64, force: bool)
    ensures
        force ==> refetch_spec(now, fetched_at, max_age, force),
        fetched_at is None ==> refetch_spec(now, fetched_at, max_age, force),
        !force && fetched_at is Some ==> (refetch_spec(now, fetched_at, max_age, force) <==> now
            - fetched_at->0 > max_age),
{
}

/// A score point at most six hours old (or stamped later than `now`) stays;
/// an older one leaves.
pub proof fn lemma_score_points_kept(now: i64, ts: i64)
    ensures
        now - ts <= SCORE_HIST_SECS ==> keep_point_spec(now, ts),
        now - ts > SCORE_HIST_SECS ==> !keep_point_spec(now, ts),
{
}

/// Whether a cached item must be fetched again at `now`.
pub fn needs_refetch(now: i64, fetched_at: Option<i64>, max_age: i64, force: bool) -> (b: bool)
    requires
        age_fits(now, fetched_at),
    ensures
        b == refetch_spec(now, fetched_at, max_age, force),
        force ==> b,
        fetched_at is None ==> b,
        !force && fetched_at is Some ==> (b <==> now - fetched_at->0 > max_age),
{
    if force {
        return true;
    }
    match fetched_at {
        Some(t) => now - t > max_age,
        None => true,
    }
}

/// Whether a copy saved to disk at `saved_at` may still be used.
pub fn disk_copy_usable(now: i64, saved_at: i64, max_age: i64) -> (b: bool)
    requires
        i64::MIN <= now - saved_at <= i64::MAX,
    ensures
        b == (now - saved_at <= max_age),
{
    now - saved_at <= max_age
}

/// A score point stamped `ts` stays in the sparkline at `now`.
pub open spec fn keep_point_spec(now: i64, ts: i64) -> bool {
    let age = now - ts;
    let clamped = if age > i64::MAX {
        i64::MAX as int
    } else if age < i64::MIN {
        i64::MIN as int
    } else {
        age
    };
    clamped <= SCORE_HIST_SECS
}

pub fn keep_score_point(now: i64, ts: i64) -> (b: bool)
    ensures
        b == keep_point_spec(now, ts),
        b == (now - ts <= SCORE_HIST_SECS),
{
    let age: i64 = if ts < 0 && now > i64::MAX + ts {
        i64::MAX
    } else if ts > 0 && now < i64::MIN + ts {
        i64::MIN
    } else {
        now - ts
    };
    age <= SCORE_HIST_SECS
}

pub open spec fn is_ascii_alnum(c: char) -> bool {
    ('0' <= c <= '9') || ('A' <= c <= 'Z') || ('a' <= c <= 'z')
}

/// The file a symbol's daily history is cached in: ASCII letters and digits
/// kept, every other character `_`, then `.json`.
pub open spec fn history_file_spec(yahoo: Seq<char>) -> Seq<char> {
    Seq::new(yahoo.len(), |i: int| if is_ascii_alnum(yahoo[i]) { yahoo[i] } else { '_' })
        + ".json"@
}

pub fn history_file_name(yahoo: &str) -> (s: String)
    ensures
        s@ == history_file_spec(yahoo@),
{
    let c = chars_of(yahoo);
    let mut out: Vec<char> = Vec::new();
    for i in 0..c.len()
        invariant
            c@ == yahoo@,
            out@ == Seq::new(i as nat, |j: int| if is_ascii_alnum(c@[j]) { c@[j] } else { '_' }),
    {
        let ch = c[i];
        let keep = ('0' <= ch && ch <= '9') || ('A' <= ch && ch <= 'Z') || ('a' <= ch && ch <= 'z');
        out.push(if keep { ch } else { '_' });
        assert(out@ =~= Seq::new((i + 1) as nat, |j: int| if is_ascii_alnum(c@[j]) { c@[j] } else { '_' }));
    }
    push_all(&mut out, &chars_of(".json"));
    assert(out@ =~= history_file_spec(yahoo@));
    text_from_chars(&out)
}

/// Display ids of the tape, in tape order: the core five, then the sectors.
pub open spec fn tape_ids_spec() -> Seq<Seq<char>> {
    seq![
        "SPY"@, "QQQ"@, "VIX"@, "TNX"@, "DXY"@, "XLK"@, "XLF"@, "XLE"@, "XLV"@, "XLY"@,
        "XLI"@, "XLP"@, "XLU"@, "XLB"@, "XLRE"@, "XLC"@,
    ]
}

pub fn tape_ids() -> (v: Vec<&'static str>)
    ensures
        v@.len() == tape_ids_spec().len(),
        forall|i: int| 0 <= i < v@.len() ==> (#[trigger] v@[i])@ == tape_ids_spec()[i],
{
    let v = vec![
        "SPY", "QQQ", "VIX", "TNX", "DXY", "XLK", "XLF", "XLE", "XLV", "XLY", "XLI", "XLP",
        "XLU", "XLB", "XLRE", "XLC",
    ];
    v
}

/// Where a quote goes on the tape; quotes not on it go last.
pub fn tape_rank(id: &str) -> (r: usize)
    ensures
        (exists|k: int| 0 <= k < tape_ids_spec().len() && tape_ids_spec()[k] == id@) ==> (
        r < tape_ids_spec().len() && tape_ids_spec()[r as int] == id@ && forall|j: int|
            0 <= j < r ==> tape_ids_spec()[j] != id@),
        !(exists|k: int| 0 <= k < tape_ids_spec().len() && tape_ids_spec()[k] == id@) ==> r
            == OFF_TAPE_RANK,
{
    let ids = tape_ids();
    let key = chars_of(id);
    for k in 0..ids.len()
        invariant
            ids@.len() == tape_ids_spec().len(),
            forall|i: int| 0 <= i < ids@.len() ==> (#[trigger] ids@[i])@ == tape_ids_spec()[i],
            key@ == id@,
            forall|j: int| 0 <= j < k ==> tape_ids_spec()[j] != id@,
    {
        if eq_chars(&chars_of(ids[k]), &key) {
            return k;
        }
    }
    OFF_TAPE_RANK
}

pub open spec fn tally_spec(flags: Seq<Option<bool>>) -> (nat, nat)
    decreases flags.len(),
{
    if flags.len() == 0 {
        (0, 0)
    } else {
        let (a, n) = tally_spec(flags.drop_last());
        match flags.last() {
            Some(true) => (a + 1, n + 1),
            Some(false) => (a, n + 1),
            None => (a, n),
        }
    }
}

/// Breadth tally: (names above the average, names with enough history).
pub fn breadth_tally(flags: &Vec<Option<bool>>) -> (r: (usize, usize))
    ensures
        r.0 as nat == tally_spec(flags@).0,
        r.1 as nat == tally_spec(flags@).1,
        r.0 <= r.1 <= flags@.len(),
{
    let mut above: usize = 0;
    let mut counted: usize = 0;
    for i in 0..flags.len()
        invariant
            above as nat == tally_spec(flags@.take(i as int)).0,
            counted as nat == tally_spec(flags@.take(i as int)).1,
            above <= counted <= i,
    {
        assert(flags@.take(i + 1).drop_last() =~= flags@.take(i as int));
        match flags[i] {
            Some(true) => {
                above = above + 1;
                counted = counted + 1;
            },
            Some(false) => {
                counted = counted + 1;
            },
            None => {},
        }
    }
    assert(flags@.take(flags@.len() as int) =~= flags@);
    (above, counted)
}

// ------------------------------------------------------------ history symbols

/// `str` order: lexicographic by character (code point).
pub open spec fn text_lt(a: Seq<char>, b: Seq<char>) -> bool
    decreases a.len(),
{
    if a.len() == 0 {
        b.len() > 0
    } else if b.len() == 0 {
        false
    } else if a[0] != b[0] {
        a[0] < b[0]
    } else {
        text_lt(a.drop_first(), b.drop_first())
    }
}

proof fn lemma_text_lt_irreflexive(a: Seq<char>)
    ensures
        !text_lt(a, a),
    decreases a.len(),
{
    if a.len() > 0 {
        lemma_text_lt_irreflexive(a.drop_first());
    }
}

proof fn lemma_text_lt_transitive(a: Seq<char>, b: Seq<char>, c: Seq<char>)
    requires
        text_lt(a, b),
        text_lt(b, c),
    ensures
        text_lt(a, c),
    decreases a.len(),
{
    if a.len() > 0 && b.len() > 0 && c.len() > 0 && a[0] == b[0] && b[0] == c[0] {
        lemma_text_lt_transitive(a.drop_first(), b.drop_first(), c.drop_first());
    }
}

proof fn lemma_text_lt_total(a: Seq<char>, b: Seq<char>)
    requires
        a != b,
    ensures
        text_lt(a, b) || text_lt(b, a),
    decreases a.len(),
{
    if a.len() > 0 && b.len() > 0 && a[0] == b[0] {
        if a.drop_first() == b.drop_first() {
            assert(a =~= seq![a[0]] + a.drop_first());
            assert(b =~= seq![b[0]] + b.drop_first());
        }
        lemma_text_lt_total(a.drop_first(), b.drop_first());
    } else if a.len() == 0 && b.len() == 0 {
        assert(a =~= b);
    }
}

fn text_less(a: &Vec<char>, b: &Vec<char>) -> (r: bool)
    ensures
        r == text_lt(a@, b@),
{
    let mut i: usize = 0;
    assert(a@.skip(0) =~= a@);
    assert(b@.skip(0) =~= b@);
    while i < a.len() && i < b.len() && a[i] == b[i]
        invariant
            i <= a@.len(),
            i <= b@.len(),
            text_lt(a@, b@) == text_lt(a@.skip(i as int), b@.skip(i as int)),
        decreases a@.len() - i,
    {
        assert(a@.skip(i as int).drop_first() =~= a@.skip(i + 1));
        assert(b@.skip(i as int).drop_first() =~= b@.skip(i + 1));
        i = i + 1;
    }
    if i == a.len() {
        i < b.len()
    } else if i == b.len() {
        false
    } else {
        a[i] < b[i]
    }
}

/// Strictly increasing, so without repeats.
pub open spec fn strictly_sorted(s: Seq<Seq<char>>) -> bool {
    forall|a: int, b: int| 0 <= a < b < s.len() ==> text_lt(#[trigger] s[a], #[trigger] s[b])
}

pub open spec fn text_views(v: Seq<String>) -> Seq<Seq<char>> {
    Seq::new(v.len(), |i: int| v[i]@)
}

/// Yahoo symbols whose daily history the dashboard reads: the tape, then
/// the breadth names.
pub open spec fn history_sources() -> Seq<Seq<char>> {
    seq![
        "SPY"@, "QQQ"@, "^VIX"@, "^TNX"@, "DX-Y.NYB"@, "XLK"@, "XLF"@, "XLE"@, "XLV"@, "XLY"@,
        "XLI"@, "XLP"@, "XLU"@, "XLB"@, "XLRE"@, "XLC"@, "AAPL"@, "MSFT"@, "NVDA"@, "GOOGL"@,
        "AMZN"@, "META"@, "AVGO"@, "TSLA"@, "JPM"@, "BRK-B"@, "V"@, "MA"@, "UNH"@, "XOM"@, "HD"@,
        "COST"@, "PG"@, "KO"@, "PEP"@, "LIN"@, "CAT"@, "HON"@, "UNP"@, "NEE"@, "AMT"@, "DIS"@,
        "NFLX"@, "CVX"@, "WMT"@, "ORCL"@, "AMD"@, "CRM"@, "CSCO"@, "ABBV"@, "MRK"@, "JNJ"@, "LLY"@,
        "PFE"@, "BAC"@, "WFC"@, "GS"@, "NKE"@, "PM"@, "INTC"@, "QCOM"@, "TXN"@, "GE"@, "RTX"@,
        "BA"@, "SPGI"@,
    ]
}

fn history_source_list() -> (v: Vec<&'static str>)
    ensures
        v@.len() == history_sources().len(),
        forall|i: int| 0 <= i < v@.len() ==> (#[trigger] v@[i])@ == history_sources()[i],
{
    vec![
        "SPY", "QQQ", "^VIX", "^TNX", "DX-Y.NYB", "XLK", "XLF", "XLE", "XLV", "XLY", "XLI", "XLP",
        "XLU", "XLB", "XLRE", "XLC", "AAPL", "MSFT", "NVDA", "GOOGL", "AMZN", "META", "AVGO",
        "TSLA", "JPM", "BRK-B", "V", "MA", "UNH", "XOM", "HD", "COST", "PG", "KO", "PEP", "LIN",
        "CAT", "HON", "UNP", "NEE", "AMT", "DIS", "NFLX", "CVX", "WMT", "ORCL", "AMD", "CRM",
        "CSCO", "ABBV", "MRK", "JNJ", "LLY", "PFE", "BAC", "WFC", "GS", "NKE", "PM", "INTC",
        "QCOM", "TXN", "GE", "RTX", "BA", "SPGI",
    ]
}

/// Adds `s` at its place in a strictly sorted list, unless it is there.
pub(crate) fn insert_sorted(out: &mut Vec<String>, s: String)
    requires
        strictly_sorted(text_views(old(out)@)),
    ensures
        strictly_sorted(text_views(final(out)@)),
        forall|x: Seq<char>|
            text_views(final(out)@).contains(x) <==> (text_views(old(out)@).contains(x) || x == s@),
{
    let key = chars_of(s.as_str());
    let mut p: usize = 0;
    while p < out.len() && text_less(&chars_of(out[p].as_str()), &key)
        invariant
            p <= out@.len(),
            key@ == s@,
            forall|k: int| 0 <= k < p ==> text_lt(#[trigger] text_views(out@)[k], s@),
        decreases out@.len() - p,
    {
        p = p + 1;
    }
    let ghost old_v = text_views(out@);
    if p < out.len() && eq_chars(&chars_of(out[p].as_str()), &key) {
        assert(old_v[p as int] == s@);
        return;
    }
    proof {
        if p < old_v.len() {
            lemma_text_lt_total(old_v[p as int], s@);
            assert(text_lt(s@, old_v[p as int]));
        }
    }
    out.insert(p, s);
    let ghost new_v = text_views(out@);
    assert(new_v =~= old_v.insert(p as int, s@));
    proof {
        assert forall|a: int, b: int| 0 <= a < b < new_v.len() implies text_lt(
            #[trigger] new_v[a],
            #[trigger] new_v[b],
        ) by {
            if b < p {
                assert(new_v[a] == old_v[a] && new_v[b] == old_v[b]);
            } else if b == p {
                assert(new_v[a] == old_v[a]);
            } else if a < p {
                assert(new_v[a] == old_v[a] && new_v[b] == old_v[b - 1]);
            } else if a == p {
                assert(new_v[b] == old_v[b - 1]);
                if b - 1 > p {
                    assert(text_lt(old_v[p as int], old_v[b - 1]));
                    lemma_text_lt_transitive(s@, old_v[p as int], old_v[b - 1]);
                }
            } else {
                assert(new_v[a] == old_v[a - 1] && new_v[b] == old_v[b - 1]);
            }
        }
        assert forall|x: Seq<char>| new_v.contains(x) <==> (old_v.contains(x) || x == s@) by {
            if new_v.contains(x) {
                let w = choose|w: int| 0 <= w < new_v.len() && new_v[w] == x;
                if w < p {
                    assert(old_v[w] == x);
                } else if w > p {
                    assert(old_v[w - 1] == x);
                }
            }
            if old_v.contains(x) {
                let w = choose|w: int| 0 <= w < old_v.len() && old_v[w] == x;
                if w < p {
                    assert(new_v[w] == x);
                } else {
                    assert(new_v[w + 1] == x);
                }
            }
            if x == s@ {
                assert(new_v[p as int] == x);
            }
        }
    }
}

/// The symbols whose history a refresh reads, sorted and each once.
pub fn history_symbols() -> (v: Vec<String>)
    ensures
        strictly_sorted(text_views(v@)),
        forall|x: Seq<char>| text_views(v@).contains(x) <==> history_sources().contains(x),
{
    let src = history_source_list();
    let mut out: Vec<String> = Vec::new();
    for i in 0..src.len()
        invariant
            src@.len() == history_sources().len(),
            forall|j: int| 0 <= j < src@.len() ==> (#[trigger] src@[j])@ == history_sources()[j],
            strictly_sorted(text_views(out@)),
            forall|x: Seq<char>|
                text_views(out@).contains(x) <==> history_sources().take(i as int).contains(x),
    {
        let ghost before = text_views(out@);
        assert(forall|x: Seq<char>| before.contains(x) <==> history_sources().take(i as int).contains(x));
        let s = src[i].to_string();
        assert(s@ == history_sources()[i as int]);
        let ghost sv = s@;
        insert_sorted(&mut out, s);
        assert(forall|x: Seq<char>| text_views(out@).contains(x) <==> (before.contains(x) || x == sv));
        proof {
            let t0 = history_sources().take(i as int);
            let t1 = history_sources().take(i + 1);
            assert(t1 =~= t0.push(history_sources()[i as int]));
            assert forall|x: Seq<char>| text_views(out@).contains(x) <==> t1.contains(x) by {
                assert(before.contains(x) <==> t0.contains(x));
                if x == sv {
                    assert(t1[i as int] == x);
                }
                if t0.contains(x) {
                    let w = choose|w: int| 0 <= w < t0.len() && t0[w] == x;
                    assert(t1[w] == x);
                }
                if t1.contains(x) {
                    let w = choose|w: int| 0 <= w < t1.len() && t1[w] == x;
                    if w < i {
                        assert(t0[w] == x);
                    } else {
                        assert(x == sv);
                    }
                }
            }
        }
    }
    assert(history_sources().take(history_sources().len() as int) =~= history_sources());
    out
}

/// The symbols to fetch again: those whose cached history (fetched at
/// `cached_at[k]`, none when absent) is older than the history cache age.
pub fn symbols_to_fetch(
    symbols: &Vec<String>,
    cached_at: &Vec<Option<i64>>,
    now: i64,
    force: bool,
) -> (r: Vec<String>)
    requires
        cached_at@.len() == symbols@.len(),
        forall|k: int| 0 <= k < cached_at@.len() ==> age_fits(now, #[trigger] cached_at@[k]),
    ensures
        text_views(r@) == fetch_list(text_views(symbols@), cached_at@, now, force),
{
    let mut out: Vec<String> = Vec::new();
    let ghost sv = text_views(symbols@);
    for k in 0..symbols.len()
        invariant
            cached_at@.len() == symbols@.len(),
            sv == text_views(symbols@),
            forall|j: int| 0 <= j < cached_at@.len() ==> age_fits(now, #[trigger] cached_at@[j]),
            text_views(out@) == fetch_list(sv.take(k as int), cached_at@.take(k as int), now, force),
    {
        assert(sv.take(k + 1).drop_last() =~= sv.take(k as int));
        assert(cached_at@.take(k + 1).drop_last() =~= cached_at@.take(k as int));
        if needs_refetch(now, cached_at[k], crate::quotes::HISTORY_CACHE_SECS, force) {
            let ghost before = text_views(out@);
            let s = symbols[k].as_str().to_string();
            out.push(s);
            assert(text_views(out@) =~= before.push(sv[k as int]));
        }
    }
    assert(sv.take(sv.len() as int) =~= sv);
    assert(cached_at@.take(cached_at@.len() as int) =~= cached_at@);
    out
}

pub open spec fn fetch_list(
    symbols: Seq<Seq<char>>,
    cached_at: Seq<Option<i64>>,
    now: i64,
    force: bool,
) -> Seq<Seq<char>>
    decreases symbols.len(),
{
    if symbols.len() == 0 || cached_at.len() != symbols.len() {
        Seq::empty()
    } else {
        let r = fetch_list(symbols.drop_last(), cached_at.drop_last(), now, force);
        if refetch_spec(now, cached_at.last(), crate::quotes::HISTORY_CACHE_SECS, force) {
            r.push(symbols.last())
        } else {
            r
        }
    }
}

// ------------------------------------------------------------ last good value

/// After a fetch: a fetched value replaces the one held; on a failure the
/// value held stays (the dashboard keeps its last good data) and the error
/// is added to the list shown with it.
pub fn keep_last_good<T>(held: Option<T>, fetched: Result<T, String>, errors: &mut Vec<String>) -> (r: Option<T>)
    ensures
        match fetched {
            Ok(v) => r == Some(v) && final(errors)@ == old(errors)@,
            Err(e) => r == held && final(errors)@ == old(errors)@.push(e),
        },
{
    match fetched {
        Ok(v) => Some(v),
        Err(e) => {
            errors.push(e);
            held
        },
    }
}

} // verus!
