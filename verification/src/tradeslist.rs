//! Sierra Chart TradesList (tab-separated) import: the header picks the
//! columns, each non-empty row with a symbol becomes one trade row. Number
//! cells are handed on as text with their thousands separators (and, for
//! the profit, the dollar sign) removed.

use vstd::prelude::*;
use crate::journal::{
    parse_sc_datetime, parse_sc_datetime_spec, tradeslist_direction, tradeslist_direction_spec,
    tradeslist_id, tradeslist_id_spec, JournalError,
};
use crate::text::{
    chars_of, contains_chars, contains_seq, lower_ascii, lower_seq, text_from_chars, trim_chars,
    trim_seq, views,
};

verus! {

// ------------------------------------------------------------ splitting

/// `str::split` on one character: always at least one piece.
pub open spec fn split_spec(s: Seq<char>, c: char) -> Seq<Seq<char>>
    decreases s.len(),
{
    if s.len() == 0 {
        seq![Seq::empty()]
    } else {
        let rest = split_spec(s.drop_last(), c);
        if s.last() == c {
            rest.push(Seq::empty())
        } else {
            rest.update(rest.len() - 1, rest.last().push(s.last()))
        }
    }
}

proof fn lemma_split_nonempty(s: Seq<char>, c: char)
    ensures
        split_spec(s, c).len() >= 1,
    decreases s.len(),
{
    if s.len() > 0 {
        lemma_split_nonempty(s.drop_last(), c);
    }
}

pub fn split_on(s: &Vec<char>, c: char) -> (r: Vec<Vec<char>>)
    ensures
        views(r@) == split_spec(s@, c),
        r@.len() >= 1,
{
    let mut done: Vec<Vec<char>> = Vec::new();
    let mut cur: Vec<char> = Vec::new();
    assert(s@.take(0) =~= Seq::<char>::empty());
    assert(views(done@).push(cur@) =~= seq![Seq::<char>::empty()]);
    for i in 0..s.len()
        invariant
            views(done@).push(cur@) == split_spec(s@.take(i as int), c),
    {
        let ghost before = views(done@).push(cur@);
        assert(s@.take(i + 1).drop_last() =~= s@.take(i as int));
        assert(s@.take(i + 1).last() == s@[i as int]);
        proof {
            lemma_split_nonempty(s@.take(i as int), c);
        }
        if s[i] == c {
            done.push(cur);
            cur = Vec::new();
            assert(views(done@).push(cur@) =~= before.push(Seq::empty()));
        } else {
            cur.push(s[i]);
            assert(views(done@).push(cur@) =~= before.update(
                before.len() - 1,
                before.last().push(s@[i as int]),
            ));
        }
    }
    assert(s@.take(s@.len() as int) =~= s@);
    let ghost fin = views(done@).push(cur@);
    done.push(cur);
    assert(views(done@) =~= fin);
    done
}

/// A trailing carriage return removed.
pub open spec fn strip_cr(p: Seq<char>) -> Seq<char> {
    if p.len() > 0 && p.last() == '\r' {
        p.drop_last()
    } else {
        p
    }
}

/// `str::lines`: pieces between `\n`, each that ended in `\n` without a
/// trailing `\r`; no empty piece after a final `\n`.
pub open spec fn lines_spec(s: Seq<char>) -> Seq<Seq<char>> {
    let parts = split_spec(s, '\n');
    let n = parts.len() as int;
    if parts[n - 1].len() == 0 {
        Seq::new((n - 1) as nat, |i: int| strip_cr(parts[i]))
    } else {
        Seq::new(n as nat, |i: int| if i < n - 1 { strip_cr(parts[i]) } else { parts[i] })
    }
}

fn strip_cr_exec(p: &Vec<char>) -> (r: Vec<char>)
    ensures
        r@ == strip_cr(p@),
{
    let n = p.len();
    let keep = if n > 0 && p[n - 1] == '\r' { n - 1 } else { n };
    let mut r: Vec<char> = Vec::new();
    for i in 0..keep
        invariant
            keep <= p@.len(),
            r@ == p@.take(i as int),
    {
        r.push(p[i]);
        assert(p@.take(i + 1) =~= p@.take(i as int).push(p@[i as int]));
    }
    assert(r@ =~= strip_cr(p@));
    r
}

pub fn text_lines(text: &str) -> (r: Vec<Vec<char>>)
    ensures
        views(r@) == lines_spec(text@),
{
    let parts = split_on(&chars_of(text), '\n');
    let n = parts.len();
    let full = parts[n - 1].len() > 0;
    let mut r: Vec<Vec<char>> = Vec::new();
    for i in 0..n - 1
        invariant
            n == parts@.len(),
            n >= 1,
            views(r@) == Seq::new(i as nat, |j: int| strip_cr(views(parts@)[j])),
    {
        let line = strip_cr_exec(&parts[i]);
        let ghost before = views(r@);
        let ghost lv = line@;
        assert(lv == strip_cr(views(parts@)[i as int]));
        r.push(line);
        assert(views(r@) =~= before.push(lv));
        assert(views(r@) =~= Seq::new((i + 1) as nat, |j: int| strip_cr(views(parts@)[j])));
    }
    let ghost pv = views(parts@);
    let ghost firsts = views(r@);
    if full {
        let last = parts[n - 1].clone();
        assert(last@ == pv[n - 1]);
        r.push(last);
        assert(views(r@) =~= firsts.push(pv[n - 1]));
    }
    assert(pv == split_spec(text@, '\n'));
    assert(views(r@) =~= lines_spec(text@));
    r
}

// ------------------------------------------------------------ header

/// Header cells, trimmed and in ASCII lower case.
pub open spec fn header_cells(header: Seq<char>) -> Seq<Seq<char>> {
    let parts = split_spec(header, '\t');
    Seq::new(parts.len(), |i: int| lower_seq(trim_seq(parts[i])))
}

/// The first column at or after `k` whose name contains `name`.
pub open spec fn first_col_from(cols: Seq<Seq<char>>, name: Seq<char>, k: int) -> Option<int>
    decreases cols.len() - k,
{
    if k < 0 || k >= cols.len() {
        None
    } else if contains_seq(cols[k], name) {
        Some(k)
    } else {
        first_col_from(cols, name, k + 1)
    }
}

pub open spec fn col(cols: Seq<Seq<char>>, name: Seq<char>) -> Option<int> {
    first_col_from(cols, name, 0)
}

pub open spec fn pick(a: Option<int>, b: Option<int>, default: int) -> usize {
    match a {
        Some(k) => k as usize,
        None => match b {
            Some(k) => k as usize,
            None => default as usize,
        },
    }
}

/// Column index of each field a row is read from.
pub struct TradesListColumns {
    pub symbol: usize,
    pub trade_type: usize,
    pub entry_time: usize,
    pub exit_time: usize,
    pub entry_price: usize,
    pub exit_price: usize,
    pub quantity: usize,
    pub profit: usize,
    pub account: usize,
}

/// Each field by the first header that names it, else by its usual place.
pub open spec fn columns_spec(cols: Seq<Seq<char>>) -> TradesListColumns {
    TradesListColumns {
        symbol: pick(col(cols, "symbol"@), None, 0),
        trade_type: pick(col(cols, "trade type"@), col(cols, "type"@), 1),
        entry_time: pick(col(cols, "entry datetime"@), col(cols, "entry"@), 2),
        exit_time: pick(col(cols, "exit datetime"@), col(cols, "exit"@), 3),
        entry_price: pick(col(cols, "entry price"@), None, 4),
        exit_price: pick(col(cols, "exit price"@), None, 5),
        quantity: pick(col(cols, "quantity"@), col(cols, "qty"@), 6),
        profit: pick(col(cols, "profit"@), col(cols, "pnl"@), 7),
        account: pick(col(cols, "account"@), None, 8),
    }
}

fn find_col(cols: &Vec<Vec<char>>, name: &str) -> (r: Option<usize>)
    ensures
        match r {
            Some(k) => col(views(cols@), name@) == Some(k as int),
            None => col(views(cols@), name@) is None,
        },
{
    let key = chars_of(name);
    let ghost cv = views(cols@);
    for k in 0..cols.len()
        invariant
            cv == views(cols@),
            key@ == name@,
            col(cv, name@) == first_col_from(cv, name@, k as int),
    {
        if contains_chars(&cols[k], &key) {
            return Some(k);
        }
    }
    None
}

fn pick_exec(a: Option<usize>, b: Option<usize>, default: usize) -> (r: usize)
    ensures
        r == pick(
            match a {
                Some(k) => Some(k as int),
                None => None,
            },
            match b {
                Some(k) => Some(k as int),
                None => None,
            },
            default as int,
        ),
{
    match a {
        Some(k) => k,
        None => match b {
            Some(k) => k,
            None => default,
        },
    }
}

fn header_columns(header: &Vec<char>) -> (r: Option<TradesListColumns>)
    ensures
        header_cells(header@).len() < 4 ==> r is None,
        header_cells(header@).len() >= 4 ==> r == Some(columns_spec(header_cells(header@))),
{
    let parts = split_on(header, '\t');
    let mut cols: Vec<Vec<char>> = Vec::new();
    for i in 0..parts.len()
        invariant
            views(cols@) == Seq::new(i as nat, |j: int| lower_seq(trim_seq(views(parts@)[j]))),
    {
        let c = lower_ascii(&trim_chars(&parts[i]));
        let ghost before = views(cols@);
        let ghost cv = c@;
        assert(cv == lower_seq(trim_seq(views(parts@)[i as int])));
        cols.push(c);
        assert(views(cols@) =~= before.push(cv));
        assert(views(cols@) =~= Seq::new(
            (i + 1) as nat,
            |j: int| lower_seq(trim_seq(views(parts@)[j])),
        ));
    }
    assert(views(cols@) =~= header_cells(header@));
    if cols.len() < 4 {
        return None;
    }
    let symbol = find_col(&cols, "symbol");
    let trade_type = pick_exec(find_col(&cols, "trade type"), find_col(&cols, "type"), 1);
    let entry_time = pick_exec(find_col(&cols, "entry datetime"), find_col(&cols, "entry"), 2);
    let exit_time = pick_exec(find_col(&cols, "exit datetime"), find_col(&cols, "exit"), 3);
    let entry_price = pick_exec(find_col(&cols, "entry price"), None, 4);
    let exit_price = pick_exec(find_col(&cols, "exit price"), None, 5);
    let quantity = pick_exec(find_col(&cols, "quantity"), find_col(&cols, "qty"), 6);
    let profit = pick_exec(find_col(&cols, "profit"), find_col(&cols, "pnl"), 7);
    let account = pick_exec(find_col(&cols, "account"), None, 8);
    Some(
        TradesListColumns {
            symbol: pick_exec(symbol, None, 0),
            trade_type,
            entry_time,
            exit_time,
            entry_price,
            exit_price,
            quantity,
            profit,
            account,
        },
    )
}

// ------------------------------------------------------------ rows

/// Cell `i` trimmed; empty when the row is shorter.
pub open spec fn cell(cells: Seq<Seq<char>>, i: usize) -> Seq<char> {
    if i < cells.len() {
        trim_seq(cells[i as int])
    } else {
        Seq::empty()
    }
}

/// `s` without the characters `a` and `b`.
pub open spec fn without(s: Seq<char>, a: char, b: char) -> Seq<char>
    decreases s.len(),
{
    if s.len() == 0 {
        s
    } else if s.last() == a || s.last() == b {
        without(s.drop_last(), a, b)
    } else {
        without(s.drop_last(), a, b).push(s.last())
    }
}

/// Every run of two spaces read left to right becomes one space.
pub open spec fn collapse_spaces(s: Seq<char>) -> Seq<char>
    decreases s.len(),
{
    if s.len() == 0 {
        s
    } else if s.len() >= 2 && s[0] == ' ' && s[1] == ' ' {
        seq![' '] + collapse_spaces(s.subrange(2, s.len() as int))
    } else {
        seq![s[0]] + collapse_spaces(s.drop_first())
    }
}

/// One trade row of a TradesList export.
pub struct TradesListRow {
    pub symbol: String,
    /// `LONG` or `SHORT`.
    pub direction: String,
    pub entry_price: String,
    pub exit_price: String,
    pub quantity: String,
    pub profit: String,
    /// `unknown` when the cell is empty.
    pub account: String,
    pub open_datetime: String,
    pub close_datetime: String,
    pub open_epoch_ms: i64,
    pub close_epoch_ms: i64,
    pub id: String,
}

pub ghost struct TradesListRowView {
    pub symbol: Seq<char>,
    pub direction: Seq<char>,
    pub entry_price: Seq<char>,
    pub exit_price: Seq<char>,
    pub quantity: Seq<char>,
    pub profit: Seq<char>,
    pub account: Seq<char>,
    pub open_datetime: Seq<char>,
    pub close_datetime: Seq<char>,
    pub open_epoch_ms: i64,
    pub close_epoch_ms: i64,
    pub id: Seq<char>,
}

impl View for TradesListRow {
    type V = TradesListRowView;

    open spec fn view(&self) -> TradesListRowView {
        TradesListRowView {
            symbol: self.symbol@,
            direction: self.direction@,
            entry_price: self.entry_price@,
            exit_price: self.exit_price@,
            quantity: self.quantity@,
            profit: self.profit@,
            account: self.account@,
            open_datetime: self.open_datetime@,
            close_datetime: self.close_datetime@,
            open_epoch_ms: self.open_epoch_ms,
            close_epoch_ms: self.close_epoch_ms,
            id: self.id@,
        }
    }
}

/// The row a line gives: none for a blank line or one without a symbol.
pub open spec fn row_spec(line: Seq<char>, c: TradesListColumns) -> Option<TradesListRowView> {
    let cells = split_spec(line, '\t');
    let symbol = cell(cells, c.symbol);
    if trim_seq(line).len() == 0 || symbol.len() == 0 {
        None
    } else {
        let direction = tradeslist_direction_spec(cell(cells, c.trade_type));
        let acct = cell(cells, c.account);
        let account = if acct.len() == 0 {
            "unknown"@
        } else {
            acct
        };
        let open_dt = collapse_spaces(cell(cells, c.entry_time));
        let close_dt = collapse_spaces(cell(cells, c.exit_time));
        let open_ms = parse_sc_datetime_spec(open_dt);
        Some(
            TradesListRowView {
                symbol,
                direction,
                entry_price: without(cell(cells, c.entry_price), ',', ','),
                exit_price: without(cell(cells, c.exit_price), ',', ','),
                quantity: without(cell(cells, c.quantity), ',', ','),
                profit: without(cell(cells, c.profit), ',', '$'),
                account,
                open_datetime: open_dt,
                close_datetime: close_dt,
                open_epoch_ms: open_ms,
                close_epoch_ms: parse_sc_datetime_spec(close_dt),
                id: tradeslist_id_spec(symbol, open_ms, direction, account),
            },
        )
    }
}

pub open spec fn rows_spec(lines: Seq<Seq<char>>, c: TradesListColumns) -> Seq<TradesListRowView>
    decreases lines.len(),
{
    if lines.len() == 0 {
        Seq::empty()
    } else {
        let r = rows_spec(lines.drop_last(), c);
        match row_spec(lines.last(), c) {
            Some(v) => r.push(v),
            None => r,
        }
    }
}

/// The columns and rows of a TradesList export; none when the header has
/// fewer than four cells.
pub open spec fn tradeslist_spec(text: Seq<char>) -> Option<(TradesListColumns, Seq<TradesListRowView>)> {
    let ls = lines_spec(text);
    let header = if ls.len() > 0 {
        ls[0]
    } else {
        Seq::empty()
    };
    let cols = header_cells(header);
    if cols.len() < 4 {
        None
    } else {
        let c = columns_spec(cols);
        Some((c, rows_spec(if ls.len() > 0 { ls.drop_first() } else { ls }, c)))
    }
}

pub open spec fn row_views(v: Seq<TradesListRow>) -> Seq<TradesListRowView> {
    Seq::new(v.len(), |i: int| v[i]@)
}

fn without_exec(s: &Vec<char>, a: char, b: char) -> (r: String)
    ensures
        r@ == without(s@, a, b),
{
    let mut v: Vec<char> = Vec::new();
    for i in 0..s.len()
        invariant
            v@ == without(s@.take(i as int), a, b),
    {
        assert(s@.take(i + 1).drop_last() =~= s@.take(i as int));
        if s[i] != a && s[i] != b {
            v.push(s[i]);
        }
    }
    assert(s@.take(s@.len() as int) =~= s@);
    text_from_chars(&v)
}

fn collapse_exec(s: &Vec<char>) -> (r: String)
    ensures
        r@ == collapse_spaces(s@),
{
    let n = s.len();
    let mut v: Vec<char> = Vec::new();
    let mut i: usize = 0;
    assert(s@.subrange(0, n as int) =~= s@);
    while i < n
        invariant
            i <= n == s@.len(),
            v@ + collapse_spaces(s@.subrange(i as int, n as int)) == collapse_spaces(s@),
        decreases n - i,
    {
        let ghost rest = s@.subrange(i as int, n as int);
        if i + 1 < n && s[i] == ' ' && s[i + 1] == ' ' {
            assert(rest.subrange(2, rest.len() as int) =~= s@.subrange(i + 2, n as int));
            assert(v@.push(' ') + collapse_spaces(s@.subrange(i + 2, n as int)) =~= v@ + (seq![' ']
                + collapse_spaces(rest.subrange(2, rest.len() as int))));
            v.push(' ');
            i = i + 2;
        } else {
            assert(rest.drop_first() =~= s@.subrange(i + 1, n as int));
            assert(v@.push(s@[i as int]) + collapse_spaces(s@.subrange(i + 1, n as int)) =~= v@ + (
            seq![rest[0]] + collapse_spaces(rest.drop_first())));
            v.push(s[i]);
            i = i + 1;
        }
    }
    assert(v@ + collapse_spaces(s@.subrange(n as int, n as int)) =~= v@);
    text_from_chars(&v)
}

fn cell_exec(cells: &Vec<Vec<char>>, i: usize) -> (r: Vec<char>)
    ensures
        r@ == cell(views(cells@), i),
{
    if i < cells.len() {
        trim_chars(&cells[i])
    } else {
        Vec::new()
    }
}

fn row_of(line: &Vec<char>, c: &TradesListColumns) -> (r: Option<TradesListRow>)
    ensures
        match r {
            Some(v) => row_spec(line@, *c) == Some(v@),
            None => row_spec(line@, *c) is None,
        },
{
    if trim_chars(line).len() == 0 {
        return None;
    }
    let cells = split_on(line, '\t');
    let symbol_c = cell_exec(&cells, c.symbol);
    if symbol_c.len() == 0 {
        return None;
    }
    let symbol = text_from_chars(&symbol_c);
    let direction = tradeslist_direction(text_from_chars(&cell_exec(&cells, c.trade_type)).as_str());
    let acct = cell_exec(&cells, c.account);
    let account = if acct.len() == 0 {
        "unknown".to_string()
    } else {
        text_from_chars(&acct)
    };
    let open_dt = collapse_exec(&cell_exec(&cells, c.entry_time));
    let close_dt = collapse_exec(&cell_exec(&cells, c.exit_time));
    let open_ms = parse_sc_datetime(open_dt.as_str());
    let close_ms = parse_sc_datetime(close_dt.as_str());
    let id = tradeslist_id(symbol.as_str(), open_ms, direction, account.as_str());
    Some(
        TradesListRow {
            symbol,
            direction: direction.to_string(),
            entry_price: without_exec(&cell_exec(&cells, c.entry_price), ',', ','),
            exit_price: without_exec(&cell_exec(&cells, c.exit_price), ',', ','),
            quantity: without_exec(&cell_exec(&cells, c.quantity), ',', ','),
            profit: without_exec(&cell_exec(&cells, c.profit), ',', '$'),
            account,
            open_datetime: open_dt,
            close_datetime: close_dt,
            open_epoch_ms: open_ms,
            close_epoch_ms: close_ms,
            id,
        },
    )
}

/// The trade rows of a TradesList export, in file order.
pub fn parse_tradeslist_rows(text: &str) -> (r: Result<Vec<TradesListRow>, JournalError>)
    ensures
        match r {
            Ok(v) => tradeslist_spec(text@) matches Some((_, rows)) && row_views(v@) == rows,
            Err(JournalError::Parse(m)) => tradeslist_spec(text@) is None && m@
                == "TradesList header missing"@,
        },
{
    let ls = text_lines(text);
    let header: Vec<char> = if ls.len() > 0 {
        ls[0].clone()
    } else {
        Vec::new()
    };
    assert(header@ == (if views(ls@).len() > 0 { views(ls@)[0] } else { Seq::<char>::empty() }));
    let c = match header_columns(&header) {
        Some(c) => c,
        None => return Err(JournalError::Parse("TradesList header missing".to_string())),
    };
    let ghost body = if views(ls@).len() > 0 {
        views(ls@).drop_first()
    } else {
        views(ls@)
    };
    let mut out: Vec<TradesListRow> = Vec::new();
    let mut k: usize = if ls.len() > 0 { 1 } else { 0 };
    let n = ls.len();
    assert(body.take(0) =~= Seq::<Seq<char>>::empty());
    assert(row_views(out@) =~= Seq::<TradesListRowView>::empty());
    while k < n
        invariant
            n == ls@.len(),
            n > 0 ==> 1 <= k,
            n == 0 ==> k == 0,
            k <= n,
            body == (if views(ls@).len() > 0 {
                views(ls@).drop_first()
            } else {
                views(ls@)
            }),
            row_views(out@) == rows_spec(body.take(k - (if n > 0 { 1int } else { 0int })), c),
        decreases n - k,
    {
        let j = k - 1;
        assert(body.take(j + 1).drop_last() =~= body.take(j as int));
        assert(body.take(j + 1).last() == ls@[k as int]@);
        let ghost before = row_views(out@);
        match row_of(&ls[k], &c) {
            Some(row) => {
                let ghost rv = row@;
                out.push(row);
                assert(row_views(out@) =~= before.push(rv));
            },
            None => {},
        }
        k = k + 1;
    }
    assert(body.take(body.len() as int) =~= body);
    Ok(out)
}

} // verus!
