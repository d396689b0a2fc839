//! Journal rules that do not depend on prices: accounts, trading days, trade
//! filters, ids, CSV cells, timestamps of imported rows and the tombstone rule.

use vstd::prelude::*;
use crate::dates::{
    naive_date_millis, naive_utc_millis, parse_naive_date_millis, parse_naive_millis,
    utc_date_of_secs, utc_date_text,
};
use crate::text::{
    chars_of, contains_chars, contains_seq, decimal_i64, decimal_int, decimal_nat, decimal_u64, eq_chars, is_prefix,
    lower_ascii, lower_seq, parse_i64, parse_i64_spec, push_all, starts_with_chars,
    text_from_chars, trim_chars, trim_seq, upper_ascii, upper_seq,
};

verus! {

/// Errors the journal parsers of this library report.
#[derive(Debug)]
pub enum JournalError {
    Parse(String),
}

/// Which trades a view shows.
pub struct TradeFilter {
    pub accounts: Vec<String>,
    pub roots: Vec<String>,
    pub direction: Option<String>,
    pub from_epoch_ms: Option<i64>,
    pub to_epoch_ms: Option<i64>,
    pub exclude_sim: bool,
    pub closed_only: bool,
    pub query: String,
}

impl Default for TradeFilter {
    fn default() -> (f: Self)
        ensures
            f.accounts@.len() == 0,
            f.roots@.len() == 0,
            f.direction is None,
            f.from_epoch_ms is None,
            f.to_epoch_ms is None,
            !f.exclude_sim,
            !f.closed_only,
            f.query@.len() == 0,
    {
        TradeFilter {
            accounts: Vec::new(),
            roots: Vec::new(),
            direction: None,
            from_epoch_ms: None,
            to_epoch_ms: None,
            exclude_sim: false,
            closed_only: false,
            query: String::new(),
        }
    }
}

/// A named filter.
pub struct SavedView {
    pub name: String,
    pub filter: TradeFilter,
}

pub struct CheckItem {
    pub id: String,
    pub label: String,
    pub checked: bool,
}

/// Diary notes of one session day.
pub struct Session {
    pub date: String,
    pub notes: String,
    pub mood: Option<i64>,
    pub market_condition: String,
}

impl Default for Session {
    fn default() -> (s: Self)
        ensures
            s.date@.len() == 0,
            s.notes@.len() == 0,
            s.mood is None,
            s.market_condition@.len() == 0,
    {
        Session { date: String::new(), notes: String::new(), mood: None, market_condition: String::new() }
    }
}

/// A broken daily rule.
pub struct RuleBreak {
    pub date: String,
    pub kind: String,
    pub text: String,
}

fn check_item(id: &str, label: &str) -> (c: CheckItem)
    ensures
        c.id@ == id@,
        c.label@ == label@,
        !c.checked,
{
    CheckItem { id: text_from_chars(&chars_of(id)), label: text_from_chars(&chars_of(label)), checked: false }
}

/// The checklist a new trade starts with: HTF, news, risk, A+ setup, none ticked.
pub fn default_checklist() -> (v: Vec<CheckItem>)
    ensures
        v@.len() == 4,
        v@[0].id@ == "htf"@ && v@[0].label@ == "HTF aligned"@,
        v@[1].id@ == "news"@ && v@[1].label@ == "News clear"@,
        v@[2].id@ == "risk"@ && v@[2].label@ == "Risk defined"@,
        v@[3].id@ == "aplus"@ && v@[3].label@ == "A+ setup"@,
        forall|i: int| 0 <= i < 4 ==> !(#[trigger] v@[i]).checked,
{
    let mut v: Vec<CheckItem> = Vec::new();
    v.push(check_item("htf", "HTF aligned"));
    v.push(check_item("news", "News clear"));
    v.push(check_item("risk", "Risk defined"));
    v.push(check_item("aplus", "A+ setup"));
    v
}

/// An account is a simulated one when its upper-cased name contains SIM or
/// starts with DEMO, and only then.
pub proof fn lemma_sim_accounts(account: Seq<char>)
    ensures
        contains_seq(upper_seq(account), "SIM"@) ==> is_sim_account_spec(account),
        is_prefix("DEMO"@, upper_seq(account)) ==> is_sim_account_spec(account),
        !contains_seq(upper_seq(account), "SIM"@) && !is_prefix("DEMO"@, upper_seq(account))
            ==> !is_sim_account_spec(account),
{
}

/// A simulated account: its upper-cased name contains `SIM` or starts with `DEMO`.
pub open spec fn is_sim_account_spec(account: Seq<char>) -> bool {
    contains_seq(upper_seq(account), "SIM"@) || is_prefix("DEMO"@, upper_seq(account))
}

pub fn is_sim_account(account: &str) -> (b: bool)
    ensures
        b == is_sim_account_spec(account@),
        contains_seq(upper_seq(account@), "SIM"@) ==> b,
        is_prefix("DEMO"@, upper_seq(account@)) ==> b,
        !contains_seq(upper_seq(account@), "SIM"@) && !is_prefix("DEMO"@, upper_seq(account@)) ==> !b,
{
    let u = upper_ascii(&chars_of(account));
    contains_chars(&u, &chars_of("SIM")) || starts_with_chars(&u, &chars_of("DEMO"))
}

/// Shifting a trade's open time by the chart offset cannot overflow.
pub open spec fn trading_day_in_range(open_epoch_ms: i64, tz_offset_min: i32) -> bool {
    i64::MIN <= open_epoch_ms + tz_offset_min * 60_000 <= i64::MAX
}

/// The session day (`YYYY-MM-DD`, UTC after the chart offset) of a trade,
/// `1970-01-01` when the time is outside chrono's range.
pub open spec fn trading_day_spec(open_epoch_ms: i64, tz_offset_min: i32) -> Seq<char> {
    let secs = (open_epoch_ms + tz_offset_min * 60_000) / 1000;
    match utc_date_text(secs as i64) {
        Some(d) => d,
        None => "1970-01-01"@,
    }
}

pub fn trading_day(open_epoch_ms: i64, tz_offset_min: i32) -> (d: String)
    requires
        trading_day_in_range(open_epoch_ms, tz_offset_min),
    ensures
        d@ == trading_day_spec(open_epoch_ms, tz_offset_min),
{
    let adjusted = open_epoch_ms + (tz_offset_min as i64) * 60_000;
    let q = adjusted / 1000;
    let secs = if adjusted % 1000 < 0 {
        q - 1
    } else {
        q
    };
    assert(secs as int == adjusted as int / 1000);
    match utc_date_of_secs(secs) {
        Some(s) => s,
        None => text_from_chars(&chars_of("1970-01-01")),
    }
}

// ------------------------------------------------------------ filtering

/// The fields of a trade that a [`TradeFilter`] reads.
pub struct TradeKeys {
    pub id: String,
    pub account: String,
    pub symbol_raw: String,
    pub symbol_root: String,
    pub direction: String,
    pub notes: String,
    pub is_sim: bool,
    pub is_closed: bool,
    pub open_epoch_ms: i64,
}

/// The text a query searches: symbol, account, notes, direction and id, space separated.
pub open spec fn search_blob(t: TradeKeys) -> Seq<char> {
    t.symbol_raw@ + seq![' '] + t.account@ + seq![' '] + t.notes@ + seq![' '] + t.direction@
        + seq![' '] + t.id@
}

pub open spec fn in_list(list: Seq<String>, s: Seq<char>) -> bool {
    exists|i: int| 0 <= i < list.len() && (#[trigger] list[i])@ == s
}

/// Whether a trade passes a filter.
pub open spec fn filter_accepts(f: TradeFilter, t: TradeKeys) -> bool {
    &&& !(f.exclude_sim && t.is_sim)
    &&& !(f.closed_only && !t.is_closed)
    &&& (f.accounts@.len() == 0 || in_list(f.accounts@, t.account@))
    &&& (f.roots@.len() == 0 || in_list(f.roots@, t.symbol_root@))
    &&& (f.direction matches Some(d) ==> d@.len() == 0 || d@ == t.direction@)
    &&& (f.from_epoch_ms matches Some(from) ==> t.open_epoch_ms >= from)
    &&& (f.to_epoch_ms matches Some(to) ==> t.open_epoch_ms <= to)
    &&& (f.query@.len() == 0 || contains_seq(lower_seq(search_blob(t)), lower_seq(f.query@)))
}

/// What a filter does to a trade: each criterion that is set and that the
/// trade fails rejects it (sim trades when sim is excluded, open trades when
/// only closed ones are wanted, an account or root outside a non-empty list,
/// another direction, an open time outside the range, a query the trade's
/// text does not contain ignoring ASCII case), and a trade that fails none
/// is accepted.
pub proof fn lemma_filter_rejects(f: TradeFilter, t: TradeKeys)
    ensures
        f.exclude_sim && t.is_sim ==> !filter_accepts(f, t),
        f.closed_only && !t.is_closed ==> !filter_accepts(f, t),
        f.accounts@.len() > 0 && (forall|i: int| 0 <= i < f.accounts@.len() ==> (#[trigger] f.accounts@[i])@ != t.account@) ==> !filter_accepts(f, t),
        f.roots@.len() > 0 && (forall|i: int| 0 <= i < f.roots@.len() ==> (#[trigger] f.roots@[i])@ != t.symbol_root@) ==> !filter_accepts(f, t),
        (f.direction matches Some(d) && d@.len() > 0 && d@ != t.direction@) ==> !filter_accepts(f, t),
        (f.from_epoch_ms matches Some(from) && t.open_epoch_ms < from) ==> !filter_accepts(f, t),
        (f.to_epoch_ms matches Some(to) && t.open_epoch_ms > to) ==> !filter_accepts(f, t),
        f.query@.len() > 0 && !contains_seq(lower_seq(search_blob(t)), lower_seq(f.query@)) ==> !filter_accepts(f, t),
        ({
            &&& !(f.exclude_sim && t.is_sim)
            &&& !(f.closed_only && !t.is_closed)
            &&& (f.accounts@.len() == 0 || exists|i: int| 0 <= i < f.accounts@.len() && (#[trigger] f.accounts@[i])@ == t.account@)
            &&& (f.roots@.len() == 0 || exists|i: int| 0 <= i < f.roots@.len() && (#[trigger] f.roots@[i])@ == t.symbol_root@)
            &&& !(f.direction matches Some(d) && d@.len() > 0 && d@ != t.direction@)
            &&& !(f.from_epoch_ms matches Some(from) && t.open_epoch_ms < from)
            &&& !(f.to_epoch_ms matches Some(to) && t.open_epoch_ms > to)
            &&& (f.query@.len() == 0 || contains_seq(lower_seq(search_blob(t)), lower_seq(f.query@)))
        }) ==> filter_accepts(f, t),
{
}

fn list_has(list: &Vec<String>, s: &String) -> (b: bool)
    ensures
        b == in_list(list@, s@),
{
    let sc = chars_of(s.as_str());
    for i in 0..list.len()
        invariant
            sc@ == s@,
            forall|k: int| 0 <= k < i ==> (#[trigger] list@[k])@ != s@,
    {
        if eq_chars(&chars_of(list[i].as_str()), &sc) {
            return true;
        }
    }
    false
}

fn search_text(t: &TradeKeys) -> (v: Vec<char>)
    ensures
        v@ == search_blob(*t),
{
    let mut v = chars_of(t.symbol_raw.as_str());
    v.push(' ');
    push_all(&mut v, &chars_of(t.account.as_str()));
    v.push(' ');
    push_all(&mut v, &chars_of(t.notes.as_str()));
    v.push(' ');
    push_all(&mut v, &chars_of(t.direction.as_str()));
    v.push(' ');
    push_all(&mut v, &chars_of(t.id.as_str()));
    v
}

/// Whether the trade passes the filter: sim and closed flags, account and
/// root lists, direction, open-time range and a case-insensitive text query.
pub fn match_filter(t: &TradeKeys, f: &TradeFilter) -> (b: bool)
    ensures
        b == filter_accepts(*f, *t),
        f.exclude_sim && t.is_sim ==> !b,
        f.closed_only && !t.is_closed ==> !b,
        f.accounts@.len() > 0 && (forall|i: int| 0 <= i < f.accounts@.len() ==> (#[trigger] f.accounts@[i])@ != t.account@) ==> !b,
        f.roots@.len() > 0 && (forall|i: int| 0 <= i < f.roots@.len() ==> (#[trigger] f.roots@[i])@ != t.symbol_root@) ==> !b,
        (f.direction matches Some(d) && d@.len() > 0 && d@ != t.direction@) ==> !b,
        (f.from_epoch_ms matches Some(from) && t.open_epoch_ms < from) ==> !b,
        (f.to_epoch_ms matches Some(to) && t.open_epoch_ms > to) ==> !b,
        f.query@.len() > 0 && !contains_seq(lower_seq(search_blob(*t)), lower_seq(f.query@)) ==> !b,
{
    proof {
        lemma_filter_rejects(*f, *t);
    }
    if f.exclude_sim && t.is_sim {
        return false;
    }
    if f.closed_only && !t.is_closed {
        return false;
    }
    if f.accounts.len() > 0 && !list_has(&f.accounts, &t.account) {
        return false;
    }
    if f.roots.len() > 0 && !list_has(&f.roots, &t.symbol_root) {
        return false;
    }
    if let Some(d) = &f.direction {
        if !d.as_str().is_empty() && !eq_chars(&chars_of(d.as_str()), &chars_of(t.direction.as_str())) {
            return false;
        }
    }
    if let Some(from) = f.from_epoch_ms {
        if t.open_epoch_ms < from {
            return false;
        }
    }
    if let Some(to) = f.to_epoch_ms {
        if t.open_epoch_ms > to {
            return false;
        }
    }
    if !f.query.as_str().is_empty() {
        let q = lower_ascii(&chars_of(f.query.as_str()));
        let blob = lower_ascii(&search_text(t));
        if !contains_chars(&blob, &q) {
            return false;
        }
    }
    true
}

// ------------------------------------------------------------ CSV

pub open spec fn csv_special(c: char) -> bool {
    c == ',' || c == '"' || c == '\n' || c == '\r'
}

/// Every `"` doubled.
pub open spec fn double_quotes(s: Seq<char>) -> Seq<char>
    decreases s.len(),
{
    if s.len() == 0 {
        Seq::empty()
    } else {
        let r = double_quotes(s.drop_last());
        if s.last() == '"' {
            r + seq!['"', '"']
        } else {
            r.push(s.last())
        }
    }
}

/// An RFC 4180 cell: quoted, with quotes doubled, when it holds `,` `"` CR or LF.
pub open spec fn csv_cell_spec(s: Seq<char>) -> Seq<char> {
    if exists|i: int| 0 <= i < s.len() && csv_special(#[trigger] s[i]) {
        seq!['"'] + double_quotes(s) + seq!['"']
    } else {
        s
    }
}

/// A doubled quote read back as one.
pub open spec fn undouble(s: Seq<char>) -> Seq<char>
    decreases s.len(),
{
    if s.len() >= 2 && s.last() == '"' && s[s.len() - 2] == '"' {
        undouble(s.subrange(0, s.len() - 2)).push('"')
    } else if s.len() > 0 {
        undouble(s.drop_last()).push(s.last())
    } else {
        s
    }
}

/// The value a CSV reader takes from one field.
pub open spec fn csv_field_value(f: Seq<char>) -> Seq<char> {
    if f.len() >= 2 && f[0] == '"' && f.last() == '"' {
        undouble(f.subrange(1, f.len() - 1))
    } else {
        f
    }
}

proof fn lemma_undouble_double(s: Seq<char>)
    ensures
        undouble(double_quotes(s)) == s,
    decreases s.len(),
{
    if s.len() > 0 {
        lemma_undouble_double(s.drop_last());
        let r = double_quotes(s.drop_last());
        if s.last() == '"' {
            let x = r + seq!['"', '"'];
            assert(x.subrange(0, x.len() - 2) =~= r);
        } else {
            let x = r.push(s.last());
            assert(x.drop_last() =~= r);
        }
        assert(s.drop_last().push(s.last()) =~= s);
    }
}

/// A cell written by [`csv_cell`] reads back as the text it was given.
pub proof fn lemma_csv_cell_reads_back(s: Seq<char>)
    ensures
        csv_field_value(csv_cell_spec(s)) == s,
{
    if exists|i: int| 0 <= i < s.len() && csv_special(#[trigger] s[i]) {
        let f = seq!['"'] + double_quotes(s) + seq!['"'];
        assert(f.subrange(1, f.len() - 1) =~= double_quotes(s));
        lemma_undouble_double(s);
    } else if s.len() >= 2 && s[0] == '"' {
        assert(csv_special(s[0]));
    }
}

pub fn csv_cell(s: &str) -> (r: String)
    ensures
        r@ == csv_cell_spec(s@),
{
    let c = chars_of(s);
    let mut special = false;
    let mut k: usize = 0;
    while k < c.len()
        invariant
            k <= c@.len(),
            special == exists|i: int| 0 <= i < k && csv_special(#[trigger] c@[i]),
        decreases c@.len() - k,
    {
        let ch = c[k];
        if ch == ',' || ch == '"' || ch == '\n' || ch == '\r' {
            special = true;
        }
        assert(special == exists|i: int| 0 <= i < k + 1 && csv_special(#[trigger] c@[i])) by {
            if csv_special(c@[k as int]) {
                assert(0 <= k < k + 1 && csv_special(c@[k as int]));
            }
        }
        k = k + 1;
    }
    if !special {
        return text_from_chars(&c);
    }
    let mut out: Vec<char> = Vec::new();
    out.push('"');
    let mut i: usize = 0;
    while i < c.len()
        invariant
            i <= c@.len(),
            out@ == seq!['"'] + double_quotes(c@.take(i as int)),
        decreases c@.len() - i,
    {
        assert(c@.take(i + 1).drop_last() =~= c@.take(i as int));
        if c[i] == '"' {
            out.push('"');
            out.push('"');
        } else {
            out.push(c[i]);
        }
        i = i + 1;
    }
    assert(c@.take(c@.len() as int) =~= c@);
    out.push('"');
    text_from_chars(&out)
}

// ------------------------------------------------------------ ids and labels

/// Each character that `bad` selects replaced by `_`.
pub open spec fn underscore_where(s: Seq<char>, bad: spec_fn(char) -> bool) -> Seq<char> {
    Seq::new(s.len(), |i: int| if bad(s[i]) { '_' } else { s[i] })
}

pub open spec fn tradeslist_id_sep(c: char) -> bool {
    c == '.' || c == '-' || c == ' '
}

pub open spec fn acsil_symbol_sep(c: char) -> bool {
    c == '.' || c == '-' || c == ' ' || c == '/'
}

pub open spec fn acsil_account_sep(c: char) -> bool {
    c == ' ' || c == '/'
}

fn underscore_tradeslist(s: &Vec<char>) -> (r: Vec<char>)
    ensures
        r@ == underscore_where(s@, |c: char| tradeslist_id_sep(c)),
{
    let mut r: Vec<char> = Vec::new();
    for i in 0..s.len()
        invariant
            r@.len() == i,
            forall|k: int| 0 <= k < i ==> r@[k] == (if tradeslist_id_sep(s@[k]) { '_' } else { s@[k] }),
    {
        let c = s[i];
        r.push(if c == '.' || c == '-' || c == ' ' { '_' } else { c });
    }
    assert(r@ =~= underscore_where(s@, |c: char| tradeslist_id_sep(c)));
    r
}

fn underscore_acsil(s: &Vec<char>, account: bool) -> (r: Vec<char>)
    ensures
        !account ==> r@ == underscore_where(s@, |c: char| acsil_symbol_sep(c)),
        account ==> r@ == underscore_where(s@, |c: char| acsil_account_sep(c)),
{
    let mut r: Vec<char> = Vec::new();
    for i in 0..s.len()
        invariant
            r@.len() == i,
            forall|k: int|
                0 <= k < i ==> r@[k] == (if (if account {
                    acsil_account_sep(s@[k])
                } else {
                    acsil_symbol_sep(s@[k])
                }) {
                    '_'
                } else {
                    s@[k]
                }),
    {
        let c = s[i];
        let bad = if account {
            c == ' ' || c == '/'
        } else {
            c == '.' || c == '-' || c == ' ' || c == '/'
        };
        r.push(if bad { '_' } else { c });
    }
    if account {
        assert(r@ =~= underscore_where(s@, |c: char| acsil_account_sep(c)));
    } else {
        assert(r@ =~= underscore_where(s@, |c: char| acsil_symbol_sep(c)));
    }
    r
}

/// Id of a TradesList row: `{symbol with . - space as _}_{open ms}_{direction}_{account}`.
pub open spec fn tradeslist_id_spec(
    symbol: Seq<char>,
    open_ms: i64,
    direction: Seq<char>,
    account: Seq<char>,
) -> Seq<char> {
    underscore_where(symbol, |c: char| tradeslist_id_sep(c)) + seq!['_'] + decimal_int(
        open_ms as int,
    ) + seq!['_'] + direction + seq!['_'] + account
}

pub fn tradeslist_id(symbol: &str, open_ms: i64, direction: &str, account: &str) -> (id: String)
    ensures
        id@ == tradeslist_id_spec(symbol@, open_ms, direction@, account@),
{
    let mut v = underscore_tradeslist(&chars_of(symbol));
    v.push('_');
    push_all(&mut v, &decimal_i64(open_ms));
    v.push('_');
    push_all(&mut v, &chars_of(direction));
    v.push('_');
    push_all(&mut v, &chars_of(account));
    text_from_chars(&v)
}

/// Id of a trade grouped from ACSIL fills:
/// `acsil_{symbol with . - space / as _}_{open ms}_{direction}_{account with space / as _}`.
pub open spec fn acsil_trade_id_spec(
    symbol: Seq<char>,
    open_ms: i64,
    direction: Seq<char>,
    account: Seq<char>,
) -> Seq<char> {
    "acsil_"@ + underscore_where(symbol, |c: char| acsil_symbol_sep(c)) + seq!['_'] + decimal_int(
        open_ms as int,
    ) + seq!['_'] + direction + seq!['_'] + underscore_where(account, |c: char| acsil_account_sep(c))
}

pub fn acsil_trade_id(symbol: &str, open_ms: i64, direction: &str, account: &str) -> (id: String)
    ensures
        id@ == acsil_trade_id_spec(symbol@, open_ms, direction@, account@),
{
    let mut v = chars_of("acsil_");
    push_all(&mut v, &underscore_acsil(&chars_of(symbol), false));
    v.push('_');
    push_all(&mut v, &decimal_i64(open_ms));
    v.push('_');
    push_all(&mut v, &chars_of(direction));
    v.push('_');
    push_all(&mut v, &underscore_acsil(&chars_of(account), true));
    text_from_chars(&v)
}

/// An imported direction is SHORT when its upper-cased text contains SHORT
/// or is exactly S, and LONG otherwise.
pub proof fn lemma_imported_direction(raw: Seq<char>)
    ensures
        contains_seq(upper_seq(raw), "SHORT"@) ==> imported_direction_spec(raw) == "SHORT"@,
        upper_seq(raw) == "S"@ ==> imported_direction_spec(raw) == "SHORT"@,
        !contains_seq(upper_seq(raw), "SHORT"@) && upper_seq(raw) != "S"@ ==> imported_direction_spec(
            raw,
        ) == "LONG"@,
{
}

/// Direction of an imported NDJSON trade: SHORT when the upper-cased field
/// contains `SHORT` or is `S`, else LONG.
pub open spec fn imported_direction_spec(raw: Seq<char>) -> Seq<char> {
    let d = upper_seq(raw);
    if contains_seq(d, "SHORT"@) || d == "S"@ {
        "SHORT"@
    } else {
        "LONG"@
    }
}

pub fn imported_direction(raw: &str) -> (d: &'static str)
    ensures
        d@ == imported_direction_spec(raw@),
        contains_seq(upper_seq(raw@), "SHORT"@) ==> d@ == "SHORT"@,
        upper_seq(raw@) == "S"@ ==> d@ == "SHORT"@,
        !contains_seq(upper_seq(raw@), "SHORT"@) && upper_seq(raw@) != "S"@ ==> d@ == "LONG"@,
{
    let u = upper_ascii(&chars_of(raw));
    if contains_chars(&u, &chars_of("SHORT")) || eq_chars(&u, &chars_of("S")) {
        "SHORT"
    } else {
        "LONG"
    }
}

/// Direction of a TradesList row: SHORT when the upper-cased trade type contains `SHORT`.
pub open spec fn tradeslist_direction_spec(raw: Seq<char>) -> Seq<char> {
    if contains_seq(upper_seq(raw), "SHORT"@) {
        "SHORT"@
    } else {
        "LONG"@
    }
}

pub fn tradeslist_direction(raw: &str) -> (d: &'static str)
    ensures
        d@ == tradeslist_direction_spec(raw@),
{
    if contains_chars(&upper_ascii(&chars_of(raw)), &chars_of("SHORT")) {
        "SHORT"
    } else {
        "LONG"
    }
}

/// An account name, `unknown` when empty.
pub fn account_or_unknown(account: &str) -> (a: String)
    ensures
        account@.len() == 0 ==> a@ == "unknown"@,
        account@.len() > 0 ==> a@ == account@,
{
    if account.is_empty() {
        text_from_chars(&chars_of("unknown"))
    } else {
        text_from_chars(&chars_of(account))
    }
}

// ------------------------------------------------------------ timestamps

/// An integer timestamp read as seconds or milliseconds can be scaled without overflow.
pub open spec fn ts_scalable(s: Seq<char>) -> bool {
    parse_i64_spec(trim_seq(s)) matches Some(v) ==> (v > 1_000_000_000_000 || v * 1000
        >= i64::MIN)
}

/// Unix milliseconds of an ACSIL fill time: an integer (seconds unless above
/// 10^12, then milliseconds), else `YYYY-MM-DD HH:MM:SS`, with `T`, or with
/// fractional seconds, read as UTC; 0 when none applies.
pub open spec fn parse_ts_spec(s: Seq<char>) -> i64 {
    let t = trim_seq(s);
    match parse_i64_spec(t) {
        Some(v) => if v > 1_000_000_000_000 {
            v
        } else {
            (v * 1000) as i64
        },
        None => match naive_utc_millis(t, "%Y-%m-%d %H:%M:%S"@) {
            Some(m) => m,
            None => match naive_utc_millis(t, "%Y-%m-%dT%H:%M:%S"@) {
                Some(m) => m,
                None => match naive_utc_millis(t, "%Y-%m-%d %H:%M:%S%.f"@) {
                    Some(m) => m,
                    None => 0,
                },
            },
        },
    }
}

pub fn parse_ts(s: &str) -> (ms: i64)
    requires
        ts_scalable(s@),
    ensures
        ms == parse_ts_spec(s@),
{
    let t = trim_chars(&chars_of(s));
    if let Some(v) = parse_i64(&t) {
        return if v > 1_000_000_000_000 {
            v
        } else {
            v * 1000
        };
    }
    let ts = text_from_chars(&t);
    if let Some(m) = parse_naive_millis(ts.as_str(), "%Y-%m-%d %H:%M:%S") {
        return m;
    }
    if let Some(m) = parse_naive_millis(ts.as_str(), "%Y-%m-%dT%H:%M:%S") {
        return m;
    }
    if let Some(m) = parse_naive_millis(ts.as_str(), "%Y-%m-%d %H:%M:%S%.f") {
        return m;
    }
    0
}

/// Unix milliseconds of a TradesList date-time: with fractional seconds,
/// without, or a bare date at midnight, read as UTC; 0 when empty or none applies.
pub open spec fn parse_sc_datetime_spec(s: Seq<char>) -> i64 {
    let t = trim_seq(s);
    if t.len() == 0 {
        0
    } else {
        match naive_utc_millis(t, "%Y-%m-%d %H:%M:%S%.f"@) {
            Some(m) => m,
            None => match naive_utc_millis(t, "%Y-%m-%d %H:%M:%S"@) {
                Some(m) => m,
                None => match naive_utc_millis(t, "%Y-%m-%d"@) {
                    Some(m) => m,
                    None => match naive_date_millis(t, "%Y-%m-%d"@) {
                        Some(m) => m,
                        None => 0,
                    },
                },
            },
        }
    }
}

pub fn parse_sc_datetime(s: &str) -> (ms: i64)
    ensures
        ms == parse_sc_datetime_spec(s@),
{
    let t = text_from_chars(&trim_chars(&chars_of(s)));
    if t.as_str().is_empty() {
        return 0;
    }
    if let Some(m) = parse_naive_millis(t.as_str(), "%Y-%m-%d %H:%M:%S%.f") {
        return m;
    }
    if let Some(m) = parse_naive_millis(t.as_str(), "%Y-%m-%d %H:%M:%S") {
        return m;
    }
    if let Some(m) = parse_naive_millis(t.as_str(), "%Y-%m-%d") {
        return m;
    }
    if let Some(m) = parse_naive_date_millis(t.as_str(), "%Y-%m-%d") {
        return m;
    }
    0
}

// ------------------------------------------------------------ storage rules

/// The user's annotations of a stored trade: notes, and tags and screenshots as JSON arrays.
pub struct Annotations {
    pub notes: String,
    pub tags_json: String,
    pub shots_json: String,
}

/// Annotations count as edited when notes are set or a list is not `[]`.
pub open spec fn edited(a: Annotations) -> bool {
    a.notes@.len() > 0 || a.tags_json@ != "[]"@ || a.shots_json@ != "[]"@
}

/// What an upsert writes: nothing for a deleted (tombstoned) id, the stored
/// annotations when the user edited them, else those of the incoming trade.
pub fn upsert_annotations(
    tombstoned: bool,
    existing: Option<Annotations>,
    incoming: Annotations,
) -> (r: Option<Annotations>)
    ensures
        tombstoned ==> r is None,
        !tombstoned ==> match existing {
            Some(e) => if edited(e) {
                r == Some(e)
            } else {
                r == Some(incoming)
            },
            None => r == Some(incoming),
        },
{
    if tombstoned {
        return None;
    }
    match existing {
        Some(e) => {
            proof {
                reveal_strlit("[]");
            }
            let empty = chars_of("[]");
            let keep = !e.notes.as_str().is_empty() || !eq_chars(&chars_of(e.tags_json.as_str()), &empty)
                || !eq_chars(&chars_of(e.shots_json.as_str()), &empty);
            if keep {
                Some(e)
            } else {
                Some(incoming)
            }
        },
        None => Some(incoming),
    }
}

// ------------------------------------------------------------ fills and timing

/// A fill group opens long when its first fill is a buy (side 1) or unsided (0).
pub open spec fn opens_long_spec(first_side: i32) -> bool {
    first_side == 1 || first_side == 0
}

pub fn opens_long(first_side: i32) -> (b: bool)
    ensures
        b == opens_long_spec(first_side),
{
    first_side == 1 || first_side == 0
}

/// A fill adds to the position: a buy in a long group, a sell (2 or -1) in a short one.
pub open spec fn is_entry_side_spec(long: bool, side: i32) -> bool {
    if long {
        side == 1
    } else {
        side == 2 || side == -1
    }
}

pub fn is_entry_side(long: bool, side: i32) -> (b: bool)
    ensures
        b == is_entry_side_spec(long, side),
{
    if long {
        side == 1
    } else {
        side == 2 || side == -1
    }
}

/// The side a stored fill shows: `BUY` for side 1, else `SELL`.
pub fn fill_side_label(side: i32) -> (s: &'static str)
    ensures
        side == 1 ==> s@ == "BUY"@,
        side != 1 ==> s@ == "SELL"@,
{
    if side == 1 {
        "BUY"
    } else {
        "SELL"
    }
}

/// Whole seconds from open to close, when the close is later.
pub fn duration_seconds(open_ms: i64, close_ms: i64) -> (d: Option<i64>)
    ensures
        close_ms > open_ms ==> d == Some(((close_ms - open_ms) / 1000) as i64),
        close_ms <= open_ms ==> d is None,
{
    if close_ms > open_ms {
        let diff: i128 = close_ms as i128 - open_ms as i128;
        let secs: i128 = diff / 1000;
        assert(secs <= i64::MAX) by (nonlinear_arith)
            requires
                secs == diff / 1000,
                0 < diff <= 2 * 0x8000_0000_0000_0000,
        ;
        Some(secs as i64)
    } else {
        None
    }
}

/// The close time of a trade: a positive time, else none.
pub fn close_epoch(close_ms: i64) -> (c: Option<i64>)
    ensures
        close_ms > 0 ==> c == Some(close_ms),
        close_ms <= 0 ==> c is None,
{
    if close_ms > 0 {
        Some(close_ms)
    } else {
        None
    }
}

// ------------------------------------------------------------ rules

/// The break a day with `trades` trades records against a daily maximum
/// (none when the rule is off, 0, or not exceeded).
pub fn trade_count_break(date: &str, trades: u64, max_trades_per_day: u32) -> (r: Option<RuleBreak>)
    ensures
        (max_trades_per_day > 0 && trades > max_trades_per_day) ==> (r matches Some(b) && b.date@
            == date@ && b.kind@ == "trades"@ && b.text@ == decimal_nat(trades as nat) + " trades (max "@
            + decimal_nat(max_trades_per_day as nat) + ")"@),
        !(max_trades_per_day > 0 && trades > max_trades_per_day) ==> r is None,
{
    if max_trades_per_day > 0 && trades > max_trades_per_day as u64 {
        let mut t = decimal_u64(trades);
        push_all(&mut t, &chars_of(" trades (max "));
        push_all(&mut t, &decimal_u64(max_trades_per_day as u64));
        push_all(&mut t, &chars_of(")"));
        Some(
            RuleBreak {
                date: date.to_string(),
                kind: "trades".to_string(),
                text: text_from_chars(&t),
            },
        )
    } else {
        None
    }
}

// ------------------------------------------------------------ excursions and screenshots

/// Excursions measured from `.scid` ticks are kept over re-imported ones.
pub open spec fn scan_measured(mae_source: Option<Seq<char>>) -> bool {
    mae_source == Some("scid"@)
}

pub fn keeps_scan_excursions(existing_mae_source: Option<&String>) -> (b: bool)
    ensures
        b == scan_measured(
            match existing_mae_source {
                Some(s) => Some(s@),
                None => None,
            },
        ),
{
    match existing_mae_source {
        Some(s) => eq_chars(&chars_of(s.as_str()), &chars_of("scid")),
        None => false,
    }
}

/// A trade still waits for a tick scan: it has an open time and no excursions
/// from `.scid` data yet.
pub fn wants_scid_scan(open_epoch_ms: i64, mae_source: Option<&String>) -> (b: bool)
    ensures
        b == (open_epoch_ms > 0 && !scan_measured(
            match mae_source {
                Some(s) => Some(s@),
                None => None,
            },
        )),
{
    open_epoch_ms > 0 && !keeps_scan_excursions(mae_source)
}

/// The screenshot file that belongs to trades of `root` on `trading_day`:
/// `{root}_{day without dashes}.png`.
pub open spec fn screenshot_name_spec(root: Seq<char>, trading_day: Seq<char>) -> Seq<char> {
    root + seq!['_'] + trading_day.filter(|c: char| c != '-') + ".png"@
}

pub fn screenshot_file_name(root: &str, trading_day: &str) -> (s: String)
    ensures
        s@ == screenshot_name_spec(root@, trading_day@),
{
    let mut v = chars_of(root);
    v.push('_');
    let d = chars_of(trading_day);
    let ghost start = v@;
    for i in 0..d.len()
        invariant
            d@ == trading_day@,
            v@ == start + d@.take(i as int).filter(|c: char| c != '-'),
    {
        proof {
            assert(d@.take(i + 1).drop_last() =~= d@.take(i as int));
            d@.take(i as int).lemma_filter_push(d@[i as int], |c: char| c != '-');
            assert(d@.take(i as int).push(d@[i as int]) =~= d@.take(i + 1));
        }
        if d[i] != '-' {
            v.push(d[i]);
        }
        assert(v@ =~= start + d@.take(i + 1).filter(|c: char| c != '-'));
    }
    assert(d@.take(d@.len() as int) =~= d@);
    push_all(&mut v, &chars_of(".png"));
    text_from_chars(&v)
}

} // verus!
