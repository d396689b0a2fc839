//! Futures contract specs and Sierra Chart symbol normalization.
//!
//! Prices are held in hundredths of a point and tick values in cents, so every
//! value of the table is an exact integer (0.25 points is 25, $12.50 is 1250).

use vstd::prelude::*;
use crate::text::{
    chars_of, eq_chars, views, is_digit, is_prefix, starts_with_chars, text_from_chars, trim_chars, trim_seq, is_white_space, trim_start_seq, trim_end_seq,
    upper_ascii, upper_seq,
};

verus! {

/// One listed futures product and its micro sibling.
#[derive(Clone, Copy)]
pub struct ContractSpec {
    pub root: &'static str,
    pub micro_root: Option<&'static str>,
    /// Minimum price increment, in hundredths of a point.
    pub tick_size_hundredths: u64,
    /// Value of one tick of the full-size contract, in cents.
    pub cents_per_tick: u64,
    /// Value of one tick of the micro contract, in cents.
    pub micro_cents_per_tick: Option<u64>,
}

/// The mathematical content of a [`ContractSpec`].
pub ghost struct SpecRow {
    pub root: Seq<char>,
    pub micro: Option<Seq<char>>,
    pub tick: u64,
    pub cpt: u64,
    pub micro_cpt: Option<u64>,
}

impl View for ContractSpec {
    type V = SpecRow;

    open spec fn view(&self) -> SpecRow {
        SpecRow {
            root: self.root@,
            micro: match self.micro_root {
                Some(m) => Some(m@),
                None => None,
            },
            tick: self.tick_size_hundredths,
            cpt: self.cents_per_tick,
            micro_cpt: self.micro_cents_per_tick,
        }
    }
}

pub open spec fn row(
    root: Seq<char>,
    micro: Option<Seq<char>>,
    tick: u64,
    cpt: u64,
    micro_cpt: Option<u64>,
) -> SpecRow {
    SpecRow { root, micro, tick, cpt, micro_cpt }
}

/// The contract table (ES, NQ, YM, RTY, CL, GC, NKD).
pub open spec fn table() -> Seq<SpecRow> {
    seq![
        row("ES"@, Some("MES"@), 25, 1250, Some(125)),
        row("NQ"@, Some("MNQ"@), 25, 500, Some(50)),
        row("YM"@, Some("MYM"@), 100, 500, Some(50)),
        row("RTY"@, Some("M2K"@), 10, 500, Some(50)),
        row("CL"@, Some("MCL"@), 1, 1000, Some(100)),
        row("GC"@, Some("MGC"@), 10, 1000, Some(100)),
        row("NKD"@, None, 500, 500, None),
    ]
}

/// The table as executable values.
pub fn specs() -> (r: Vec<ContractSpec>)
    ensures
        r@.len() == table().len(),
        forall|i: int| 0 <= i < r@.len() ==> #[trigger] r@[i]@ == table()[i],
{
    let r = vec![
        ContractSpec {
            root: "ES",
            micro_root: Some("MES"),
            tick_size_hundredths: 25,
            cents_per_tick: 1250,
            micro_cents_per_tick: Some(125),
        },
        ContractSpec {
            root: "NQ",
            micro_root: Some("MNQ"),
            tick_size_hundredths: 25,
            cents_per_tick: 500,
            micro_cents_per_tick: Some(50),
        },
        ContractSpec {
            root: "YM",
            micro_root: Some("MYM"),
            tick_size_hundredths: 100,
            cents_per_tick: 500,
            micro_cents_per_tick: Some(50),
        },
        ContractSpec {
            root: "RTY",
            micro_root: Some("M2K"),
            tick_size_hundredths: 10,
            cents_per_tick: 500,
            micro_cents_per_tick: Some(50),
        },
        ContractSpec {
            root: "CL",
            micro_root: Some("MCL"),
            tick_size_hundredths: 1,
            cents_per_tick: 1000,
            micro_cents_per_tick: Some(100),
        },
        ContractSpec {
            root: "GC",
            micro_root: Some("MGC"),
            tick_size_hundredths: 10,
            cents_per_tick: 1000,
            micro_cents_per_tick: Some(100),
        },
        ContractSpec {
            root: "NKD",
            micro_root: None,
            tick_size_hundredths: 500,
            cents_per_tick: 500,
            micro_cents_per_tick: None,
        },
    ];
    assert(r@.len() == 7);
    r
}

/// The first row whose root is `up`.
pub open spec fn find_by_root(rows: Seq<SpecRow>, up: Seq<char>) -> Option<SpecRow>
    decreases rows.len(),
{
    if rows.len() == 0 {
        None
    } else if rows[0].root == up {
        Some(rows[0])
    } else {
        find_by_root(rows.drop_first(), up)
    }
}

/// `spec_for_root`: the table row whose root is the upper-cased argument.
pub open spec fn spec_for_root_spec(root: Seq<char>) -> Option<SpecRow> {
    find_by_root(table(), upper_seq(root))
}

/// The spec of a root code, looked up case-insensitively (ASCII).
pub fn spec_for_root(root: &str) -> (r: Option<ContractSpec>)
    ensures
        match r {
            Some(c) => spec_for_root_spec(root@) == Some(c@),
            None => spec_for_root_spec(root@) is None,
        },
{
    let up = upper_ascii(&chars_of(root));
    let tbl = specs();
    assert(table().skip(0) =~= table());
    let mut i: usize = 0;
    while i < tbl.len()
        invariant
            i <= tbl@.len(),
            up@ == upper_seq(root@),
            tbl@.len() == table().len(),
            forall|k: int| 0 <= k < tbl@.len() ==> #[trigger] tbl@[k]@ == table()[k],
            find_by_root(table(), up@) == find_by_root(table().skip(i as int), up@),
        decreases tbl@.len() - i,
    {
        let c = tbl[i];
        let rc = chars_of(c.root);
        proof {
            let rest = table().skip(i as int);
            assert(rest.len() > 0);
            assert(rest[0] == table()[i as int]);
            assert(tbl@[i as int]@ == table()[i as int]);
            assert(rest.drop_first() =~= table().skip(i + 1));
        }
        if eq_chars(&rc, &up) {
            proof {
                let rest = table().skip(i as int);
                assert(c@ == table()[i as int]);
                assert(rest[0].root == up@);
                assert(find_by_root(rest, up@) == Some(rest[0]));
            }
            return Some(c);
        }
        i = i + 1;
    }
    None
}

// ------------------------------------------------------------ listed code

/// Every code the prefix match knows: each row's root then its micro, then the aliases.
pub open spec fn keys_of(rows: Seq<SpecRow>) -> Seq<Seq<char>>
    decreases rows.len(),
{
    if rows.len() == 0 {
        Seq::empty()
    } else {
        let r = rows.last();
        let head = match r.micro {
            Some(m) => seq![r.root, m],
            None => seq![r.root],
        };
        keys_of(rows.drop_last()) + head
    }
}

pub open spec fn known_keys() -> Seq<Seq<char>> {
    keys_of(table()) + seq!["ENQ"@, "EP"@]
}

/// Scanning `keys` in order, the longest one that prefixes `token`
/// (an earlier key wins a tie, though two such keys of one length are equal).
pub open spec fn longest_prefix_in(keys: Seq<Seq<char>>, token: Seq<char>) -> Option<Seq<char>>
    decreases keys.len(),
{
    if keys.len() == 0 {
        None
    } else {
        let rest = longest_prefix_in(keys.drop_last(), token);
        let k = keys.last();
        if is_prefix(k, token) && (rest is None || rest.unwrap().len() < k.len()) {
            Some(k)
        } else {
            rest
        }
    }
}

/// Exchange words that are never the product code.
pub open spec fn is_venue_word(t: Seq<char>) -> bool {
    t == "FUT"@ || t == "CME"@ || t == "CBOT"@ || t == "COMEX"@ || t == "NYMEX"@
}

pub open spec fn is_symbol_sep(c: char) -> bool {
    c == '.' || c == '-' || c == '_' || c == ' '
}

pub open spec fn acceptable_token(t: Seq<char>) -> bool {
    t.len() > 0 && !is_venue_word(t)
}

/// The first piece of `s` between separators that is non-empty and not a
/// venue word; `cur` is the piece read so far.
pub open spec fn pick_token(s: Seq<char>, cur: Seq<char>) -> Option<Seq<char>>
    decreases s.len(),
{
    if s.len() == 0 {
        if acceptable_token(cur) {
            Some(cur)
        } else {
            None
        }
    } else if is_symbol_sep(s[0]) {
        if acceptable_token(cur) {
            Some(cur)
        } else {
            pick_token(s.drop_first(), Seq::empty())
        }
    } else {
        pick_token(s.drop_first(), cur.push(s[0]))
    }
}

pub open spec fn is_month_code(c: char) -> bool {
    c == 'F' || c == 'G' || c == 'H' || c == 'J' || c == 'K' || c == 'M' || c == 'N' || c == 'Q'
        || c == 'U' || c == 'V' || c == 'X' || c == 'Z'
}

/// A trailing month letter and one or two year digits removed (ESU26, MNQU6).
pub open spec fn strip_month_year_spec(t: Seq<char>) -> Seq<char> {
    let n = t.len();
    if n >= 3 && is_digit(t[n - 1]) {
        if is_digit(t[n - 2]) && is_month_code(t[n - 3]) {
            t.subrange(0, n - 3)
        } else if is_month_code(t[n - 2]) {
            t.subrange(0, n - 2)
        } else {
            t
        }
    } else {
        t
    }
}

/// Upper-cased, trimmed symbol without the `F.US.` prefix.
pub open spec fn normalized_symbol(raw: Seq<char>) -> Seq<char> {
    let s0 = upper_seq(trim_seq(raw));
    if is_prefix("F.US."@, s0) {
        s0.subrange(5, s0.len() as int)
    } else {
        s0
    }
}

/// The product token of a symbol: the first acceptable piece, else the whole symbol.
pub open spec fn symbol_token(raw: Seq<char>) -> Seq<char> {
    let s = normalized_symbol(raw);
    match pick_token(s, Seq::empty()) {
        Some(t) => t,
        None => s,
    }
}

/// The listed product: a known code that prefixes the token, else the token
/// without its month and year.
pub open spec fn extract_listed_spec(raw: Seq<char>) -> Seq<char> {
    let token = symbol_token(raw);
    match longest_prefix_in(known_keys(), token) {
        Some(k) => k,
        None => strip_month_year_spec(token),
    }
}

/// First row whose root or micro code equals `up`: (root, is_micro).
pub open spec fn find_root_or_micro(rows: Seq<SpecRow>, up: Seq<char>) -> Option<(Seq<char>, bool)>
    decreases rows.len(),
{
    if rows.len() == 0 {
        None
    } else if rows[0].root == up {
        Some((rows[0].root, false))
    } else if rows[0].micro == Some(up) {
        Some((rows[0].root, true))
    } else {
        find_root_or_micro(rows.drop_first(), up)
    }
}

/// Canonical root of a listed code, and whether it is the micro contract.
pub open spec fn canonical_root_spec(listed: Seq<char>) -> (Seq<char>, bool) {
    let up = upper_seq(listed);
    if up == "ENQ"@ {
        ("NQ"@, false)
    } else if up == "EP"@ {
        ("ES"@, false)
    } else {
        match find_root_or_micro(table(), up) {
            Some(p) => p,
            None => (up, false),
        }
    }
}

pub ghost struct ParsedSymbolView {
    pub raw: Seq<char>,
    pub root: Seq<char>,
    pub listed: Seq<char>,
    pub is_micro: bool,
    pub tick_size_hundredths: Option<u64>,
    pub cents_per_tick: Option<u64>,
}

/// What `parse_symbol` makes of `raw`.
pub open spec fn parse_symbol_spec(raw: Seq<char>) -> ParsedSymbolView {
    let listed = extract_listed_spec(raw);
    let (root, is_micro) = canonical_root_spec(listed);
    let found = spec_for_root_spec(root);
    ParsedSymbolView {
        raw,
        root,
        listed,
        is_micro,
        tick_size_hundredths: match found {
            Some(r) => Some(r.tick),
            None => None,
        },
        cents_per_tick: match found {
            Some(r) => if is_micro {
                r.micro_cpt
            } else {
                Some(r.cpt)
            },
            None => None,
        },
    }
}

pub struct ParsedSymbol {
    pub raw: String,
    /// Canonical root (ES, NQ, …) when known; otherwise the stripped code.
    pub root: String,
    /// Listed product (MES vs ES).
    pub listed: String,
    pub is_micro: bool,
    /// Tick size in hundredths of a point, when the root is in the table.
    pub tick_size_hundredths: Option<u64>,
    /// Tick value in cents, when the root is in the table.
    pub cents_per_tick: Option<u64>,
}

impl View for ParsedSymbol {
    type V = ParsedSymbolView;

    open spec fn view(&self) -> ParsedSymbolView {
        ParsedSymbolView {
            raw: self.raw@,
            root: self.root@,
            listed: self.listed@,
            is_micro: self.is_micro,
            tick_size_hundredths: self.tick_size_hundredths,
            cents_per_tick: self.cents_per_tick,
        }
    }
}


/// The codes of [`known_keys`] as executable values.
pub fn known_key_list() -> (v: Vec<Vec<char>>)
    ensures
        views(v@) == known_keys(),
{
    let tbl = specs();
    let mut v: Vec<Vec<char>> = Vec::new();
    let mut i: usize = 0;
    while i < tbl.len()
        invariant
            i <= tbl@.len(),
            tbl@.len() == table().len(),
            forall|k: int| 0 <= k < tbl@.len() ==> #[trigger] tbl@[k]@ == table()[k],
            views(v@) == keys_of(table().take(i as int)),
        decreases tbl@.len() - i,
    {
        let c = tbl[i];
        proof {
            assert(c@ == table()[i as int]);
            assert(table().take(i + 1).drop_last() =~= table().take(i as int));
            assert(table().take(i + 1).last() == table()[i as int]);
        }
        let ghost before = views(v@);
        v.push(chars_of(c.root));
        match c.micro_root {
            Some(m) => {
                v.push(chars_of(m));
                assert(views(v@) =~= before + seq![c.root@, m@]);
            },
            None => {
                assert(views(v@) =~= before + seq![c.root@]);
            },
        }
        i = i + 1;
    }
    assert(table().take(7) =~= table());
    let ghost before = views(v@);
    v.push(chars_of("ENQ"));
    v.push(chars_of("EP"));
    assert(views(v@) =~= before + seq!["ENQ"@, "EP"@]);
    v
}

/// The longest known code that prefixes `token`.
pub fn match_known_prefix(token: &Vec<char>) -> (r: Option<Vec<char>>)
    ensures
        match r {
            Some(k) => longest_prefix_in(known_keys(), token@) == Some(k@),
            None => longest_prefix_in(known_keys(), token@) is None,
        },
{
    let keys = known_key_list();
    let mut best: Option<Vec<char>> = None;
    let mut i: usize = 0;
    while i < keys.len()
        invariant
            i <= keys@.len(),
            views(keys@) == known_keys(),
            match best {
                Some(k) => longest_prefix_in(known_keys().take(i as int), token@) == Some(k@),
                None => longest_prefix_in(known_keys().take(i as int), token@) is None,
            },
        decreases keys@.len() - i,
    {
        proof {
            assert(known_keys().take(i + 1).drop_last() =~= known_keys().take(i as int));
            assert(known_keys().take(i + 1).last() == keys@[i as int]@);
        }
        let k = &keys[i];
        if starts_with_chars(token, k) {
            let longer = match &best {
                Some(b) => b.len() < k.len(),
                None => true,
            };
            if longer {
                best = Some(k.clone());
            }
        }
        i = i + 1;
    }
    proof {
        assert(known_keys().take(keys@.len() as int) =~= known_keys());
    }
    best
}

pub fn is_month(c: char) -> (b: bool)
    ensures
        b == is_month_code(c),
{
    c == 'F' || c == 'G' || c == 'H' || c == 'J' || c == 'K' || c == 'M' || c == 'N' || c == 'Q'
        || c == 'U' || c == 'V' || c == 'X' || c == 'Z'
}

fn prefix_chars(t: &Vec<char>, n: usize) -> (r: Vec<char>)
    requires
        n <= t@.len(),
    ensures
        r@ == t@.subrange(0, n as int),
{
    let mut r: Vec<char> = Vec::new();
    for i in 0..n
        invariant
            n <= t@.len(),
            r@ == t@.subrange(0, i as int),
    {
        r.push(t[i]);
        assert(t@.subrange(0, i + 1) == t@.subrange(0, i as int).push(t@[i as int]));
    }
    r
}

/// Drops a trailing month code and one- or two-digit year (ESU26, MNQU6, 1OZZ26).
pub fn strip_month_year(t: &Vec<char>) -> (r: Vec<char>)
    ensures
        r@ == strip_month_year_spec(t@),
{
    let n = t.len();
    if n >= 3 {
        let last = t[n - 1];
        let second = t[n - 2];
        if '0' <= last && last <= '9' {
            if '0' <= second && second <= '9' && is_month(t[n - 3]) {
                return prefix_chars(t, n - 3);
            }
            if is_month(second) {
                return prefix_chars(t, n - 2);
            }
        }
    }
    t.clone()
}

pub fn is_symbol_separator(c: char) -> (b: bool)
    ensures
        b == is_symbol_sep(c),
{
    c == '.' || c == '-' || c == '_' || c == ' '
}

fn is_venue(t: &Vec<char>) -> (b: bool)
    ensures
        b == is_venue_word(t@),
{
    eq_chars(t, &chars_of("FUT")) || eq_chars(t, &chars_of("CME")) || eq_chars(
        t,
        &chars_of("CBOT"),
    ) || eq_chars(t, &chars_of("COMEX")) || eq_chars(t, &chars_of("NYMEX"))
}

/// The first non-empty piece between `. - _ ` separators that is not a venue word.
pub fn first_token(s: &Vec<char>) -> (r: Option<Vec<char>>)
    ensures
        match r {
            Some(t) => pick_token(s@, Seq::empty()) == Some(t@),
            None => pick_token(s@, Seq::empty()) is None,
        },
{
    let mut cur: Vec<char> = Vec::new();
    let mut i: usize = 0;
    assert(s@.skip(0) =~= s@);
    while i < s.len()
        invariant
            i <= s@.len(),
            pick_token(s@, Seq::empty()) == pick_token(s@.skip(i as int), cur@),
        decreases s@.len() - i,
    {
        let c = s[i];
        proof {
            assert(s@.skip(i as int)[0] == c);
            assert(s@.skip(i as int).drop_first() =~= s@.skip(i + 1));
        }
        if is_symbol_separator(c) {
            if cur.len() > 0 && !is_venue(&cur) {
                return Some(cur);
            }
            cur = Vec::new();
            assert(cur@ =~= Seq::<char>::empty());
        } else {
            cur.push(c);
        }
        i = i + 1;
    }
    if cur.len() > 0 && !is_venue(&cur) {
        Some(cur)
    } else {
        None
    }
}

/// Upper-cased, trimmed symbol with any `F.US.` prefix removed.
pub fn normalize_symbol(raw: &str) -> (r: Vec<char>)
    ensures
        r@ == normalized_symbol(raw@),
{
    let s0 = upper_ascii(&trim_chars(&chars_of(raw)));
    let pre = chars_of("F.US.");
    proof {
        reveal_strlit("F.US.");
    }
    if starts_with_chars(&s0, &pre) {
        let mut r: Vec<char> = Vec::new();
        let mut i: usize = 5;
        while i < s0.len()
            invariant
                5 <= i <= s0@.len(),
                r@ == s0@.subrange(5, i as int),
            decreases s0@.len() - i,
        {
            r.push(s0[i]);
            assert(s0@.subrange(5, i + 1) == s0@.subrange(5, i as int).push(s0@[i as int]));
            i = i + 1;
        }
        r
    } else {
        s0
    }
}

/// The listed product code of a raw symbol.
pub fn extract_listed(raw: &str) -> (r: Vec<char>)
    ensures
        r@ == extract_listed_spec(raw@),
{
    let s = normalize_symbol(raw);
    let token = match first_token(&s) {
        Some(t) => t,
        None => s,
    };
    assert(token@ == symbol_token(raw@));
    match match_known_prefix(&token) {
        Some(k) => k,
        None => strip_month_year(&token),
    }
}

/// Canonical root of a listed code and whether it is the micro contract.
pub fn canonical_root(listed: &Vec<char>) -> (r: (Vec<char>, bool))
    ensures
        (r.0@, r.1) == canonical_root_spec(listed@),
{
    let up = upper_ascii(listed);
    proof {
        reveal_strlit("ENQ");
        reveal_strlit("EP");
        reveal_strlit("NQ");
        reveal_strlit("ES");
    }
    if eq_chars(&up, &chars_of("ENQ")) {
        return (chars_of("NQ"), false);
    }
    if eq_chars(&up, &chars_of("EP")) {
        return (chars_of("ES"), false);
    }
    let tbl = specs();
    assert(table().skip(0) =~= table());
    let mut i: usize = 0;
    while i < tbl.len()
        invariant
            i <= tbl@.len(),
            up@ == upper_seq(listed@),
            up@ != "ENQ"@,
            up@ != "EP"@,
            tbl@.len() == table().len(),
            forall|k: int| 0 <= k < tbl@.len() ==> #[trigger] tbl@[k]@ == table()[k],
            find_root_or_micro(table(), up@) == find_root_or_micro(table().skip(i as int), up@),
        decreases tbl@.len() - i,
    {
        let c = tbl[i];
        proof {
            let rest = table().skip(i as int);
            assert(rest.len() > 0);
            assert(rest[0] == table()[i as int]);
            assert(c@ == table()[i as int]);
            assert(rest.drop_first() =~= table().skip(i + 1));
        }
        let rc = chars_of(c.root);
        if eq_chars(&up, &rc) {
            return (rc, false);
        }
        if let Some(m) = c.micro_root {
            if eq_chars(&up, &chars_of(m)) {
                return (rc, true);
            }
        }
        i = i + 1;
    }
    (up, false)
}

/// Parses a Sierra Chart / vendor symbol into its root, listed product and tick values.
pub fn parse_symbol(raw: &str) -> (p: ParsedSymbol)
    ensures
        p@ == parse_symbol_spec(raw@),
{
    let listed = extract_listed(raw);
    let (root, is_micro) = canonical_root(&listed);
    let root_s = text_from_chars(&root);
    let spec = spec_for_root(root_s.as_str());
    let (tick, cpt) = match spec {
        Some(s) => if is_micro {
            (Some(s.tick_size_hundredths), s.micro_cents_per_tick)
        } else {
            (Some(s.tick_size_hundredths), Some(s.cents_per_tick))
        },
        None => (None, None),
    };
    ParsedSymbol {
        raw: text_from_chars(&chars_of(raw)),
        root: root_s,
        listed: text_from_chars(&listed),
        is_micro,
        tick_size_hundredths: tick,
        cents_per_tick: cpt,
    }
}

// ------------------------------------------------------------ laws

pub open spec fn plain_char(c: char) -> bool {
    ('A' <= c <= 'Z') || ('0' <= c <= '9')
}

/// A code made of ASCII capitals and digits.
pub open spec fn plain_code(code: Seq<char>) -> bool
    decreases code.len(),
{
    code.len() == 0 || (plain_char(code[0]) && plain_code(code.drop_first()))
}

proof fn lemma_plain_code_chars(code: Seq<char>)
    requires
        plain_code(code),
    ensures
        forall|i: int| 0 <= i < code.len() ==> plain_char(#[trigger] code[i]),
    decreases code.len(),
{
    if code.len() > 0 {
        lemma_plain_code_chars(code.drop_first());
        assert forall|i: int| 0 <= i < code.len() implies plain_char(#[trigger] code[i]) by {
            if i > 0 {
                assert(code[i] == code.drop_first()[i - 1]);
            }
        }
    }
}

proof fn lemma_longest_prefix_is_prefix(keys: Seq<Seq<char>>, token: Seq<char>)
    ensures
        longest_prefix_in(keys, token) matches Some(r) ==> is_prefix(r, token),
    decreases keys.len(),
{
    if keys.len() > 0 {
        lemma_longest_prefix_is_prefix(keys.drop_last(), token);
    }
}

proof fn lemma_longest_prefix_of_key(keys: Seq<Seq<char>>, token: Seq<char>)
    requires
        keys.contains(token),
    ensures
        longest_prefix_in(keys, token) == Some(token),
    decreases keys.len(),
{
    let rest = longest_prefix_in(keys.drop_last(), token);
    lemma_longest_prefix_is_prefix(keys.drop_last(), token);
    if keys.last() == token {
        assert(is_prefix(token, token)) by {
            assert(token.subrange(0, token.len() as int) =~= token);
        }
        if let Some(r) = rest {
            if r.len() == token.len() {
                assert(r =~= token.subrange(0, r.len() as int));
                assert(token.subrange(0, token.len() as int) =~= token);
            }
        }
    } else {
        let w = choose|w: int| 0 <= w < keys.len() && keys[w] == token;
        assert(keys.drop_last()[w] == token);
        lemma_longest_prefix_of_key(keys.drop_last(), token);
    }
}

proof fn lemma_pick_whole(s: Seq<char>, cur: Seq<char>)
    requires
        forall|i: int| 0 <= i < s.len() ==> !is_symbol_sep(#[trigger] s[i]),
    ensures
        pick_token(s, cur) == (if acceptable_token(cur + s) {
            Some(cur + s)
        } else {
            None
        }),
    decreases s.len(),
{
    if s.len() == 0 {
        assert(cur + s =~= cur);
    } else {
        assert(!is_symbol_sep(s[0]));
        assert forall|i: int| 0 <= i < s.drop_first().len() implies !is_symbol_sep(
            #[trigger] s.drop_first()[i],
        ) by {
            assert(s.drop_first()[i] == s[i + 1]);
        }
        lemma_pick_whole(s.drop_first(), cur.push(s[0]));
        assert(cur.push(s[0]) + s.drop_first() =~= cur + s);
    }
}

/// A plain code that the prefix match knows is its own listed product.
proof fn lemma_known_code_listed(code: Seq<char>)
    requires
        0 < code.len() < 5,
        plain_code(code),
        !is_venue_word(code),
        known_keys().contains(code),
    ensures
        upper_seq(code) == code,
        extract_listed_spec(code) == code,
{
    lemma_plain_code_chars(code);
    assert(upper_seq(code) =~= code);
    assert(!is_white_space(code[0]));
    assert(!is_white_space(code.last()));
    assert(trim_start_seq(code) == code);
    assert(trim_end_seq(code) == code);
    assert(!is_prefix("F.US."@, code)) by {
        reveal_strlit("F.US.");
    }
    assert(normalized_symbol(code) == code);
    assert forall|i: int| 0 <= i < code.len() implies !is_symbol_sep(#[trigger] code[i]) by {
        assert(plain_char(code[i]));
    }
    lemma_pick_whole(code, Seq::empty());
    assert(Seq::<char>::empty() + code =~= code);
    assert(symbol_token(code) == code);
    lemma_longest_prefix_of_key(known_keys(), code);
}

proof fn lemma_known_keys()
    ensures
        known_keys() =~= seq![
            "ES"@, "MES"@, "NQ"@, "MNQ"@, "YM"@, "MYM"@, "RTY"@, "M2K"@, "CL"@, "MCL"@, "GC"@,
            "MGC"@, "NKD"@, "ENQ"@, "EP"@,
        ],
{
    let t = table();
    assert(t.drop_last() =~= t.subrange(0, 6));
    assert(t.subrange(0, 6).drop_last() =~= t.subrange(0, 5));
    assert(t.subrange(0, 5).drop_last() =~= t.subrange(0, 4));
    assert(t.subrange(0, 4).drop_last() =~= t.subrange(0, 3));
    assert(t.subrange(0, 3).drop_last() =~= t.subrange(0, 2));
    assert(t.subrange(0, 2).drop_last() =~= t.subrange(0, 1));
    assert(t.subrange(0, 1).drop_last() =~= Seq::<SpecRow>::empty());
    assert(keys_of(Seq::<SpecRow>::empty()) == Seq::<Seq<char>>::empty());
    assert(t.subrange(0, 1).last() == t[0]);
    assert(t[0].micro == Some("MES"@));
    assert(Seq::<Seq<char>>::empty() + seq!["ES"@, "MES"@] =~= seq!["ES"@, "MES"@]);
    assert(keys_of(t.subrange(0, 1)) =~= seq!["ES"@, "MES"@]);
    assert(t.subrange(0, 2).last() == t[1]);
    assert(keys_of(t.subrange(0, 2)) =~= seq!["ES"@, "MES"@, "NQ"@, "MNQ"@]);
    assert(t.subrange(0, 3).last() == t[2]);
    assert(keys_of(t.subrange(0, 3)) =~= seq!["ES"@, "MES"@, "NQ"@, "MNQ"@, "YM"@, "MYM"@]);
    assert(t.subrange(0, 4).last() == t[3]);
    assert(keys_of(t.subrange(0, 4)) =~= seq![
        "ES"@, "MES"@, "NQ"@, "MNQ"@, "YM"@, "MYM"@, "RTY"@, "M2K"@,
    ]);
    assert(t.subrange(0, 5).last() == t[4]);
    assert(keys_of(t.subrange(0, 5)) =~= seq![
        "ES"@, "MES"@, "NQ"@, "MNQ"@, "YM"@, "MYM"@, "RTY"@, "M2K"@, "CL"@, "MCL"@,
    ]);
    assert(t.subrange(0, 6).last() == t[5]);
    assert(keys_of(t.subrange(0, 6)) =~= seq![
        "ES"@, "MES"@, "NQ"@, "MNQ"@, "YM"@, "MYM"@, "RTY"@, "M2K"@, "CL"@, "MCL"@, "GC"@, "MGC"@,
    ]);
}

/// What parsing a row's full-size code, and its micro code, gives.
pub open spec fn parses_to_row(r: SpecRow) -> bool {
    let full = parse_symbol_spec(r.root);
    &&& full.root == r.root
    &&& full.listed == r.root
    &&& !full.is_micro
    &&& full.tick_size_hundredths == Some(r.tick)
    &&& full.cents_per_tick == Some(r.cpt)
    &&& match r.micro {
        Some(m) => {
            let mp = parse_symbol_spec(m);
            &&& mp.root == r.root
            &&& mp.listed == m
            &&& mp.is_micro
            &&& mp.tick_size_hundredths == Some(r.tick)
            &&& mp.cents_per_tick == r.micro_cpt
        },
        None => true,
    }
}

proof fn lemma_code_listed_at(code: Seq<char>, idx: int)
    requires
        0 <= idx < known_keys().len(),
        known_keys()[idx] == code,
        0 < code.len() < 5,
        plain_code(code),
        !is_venue_word(code),
    ensures
        upper_seq(code) == code,
        extract_listed_spec(code) == code,
{
    assert(known_keys().contains(code));
    lemma_known_code_listed(code);
}

/// Each contract of the table is recognised from its own code: the
/// full-size code gives its root and full tick value, the micro code the
/// same root and tick size with the micro tick value.
pub proof fn lemma_table_codes_parse_to_rows()
    ensures
        forall|k: int| 0 <= k < table().len() ==> #[trigger] parses_to_row(table()[k]),
{
    reveal_strlit("ES");
    reveal_strlit("MES");
    reveal_strlit("NQ");
    reveal_strlit("MNQ");
    reveal_strlit("YM");
    reveal_strlit("MYM");
    reveal_strlit("RTY");
    reveal_strlit("M2K");
    reveal_strlit("CL");
    reveal_strlit("MCL");
    reveal_strlit("GC");
    reveal_strlit("MGC");
    reveal_strlit("NKD");
    reveal_strlit("ENQ");
    reveal_strlit("EP");
    reveal_strlit("FUT");
    reveal_strlit("CME");
    reveal_strlit("CBOT");
    reveal_strlit("COMEX");
    reveal_strlit("NYMEX");
    reveal_with_fuel(plain_code, 4);
    reveal_with_fuel(find_root_or_micro, 8);
    reveal_with_fuel(find_by_root, 8);
    lemma_known_keys();
    lemma_code_listed_at("ES"@, 0);
    lemma_code_listed_at("MES"@, 1);
    lemma_code_listed_at("NQ"@, 2);
    lemma_code_listed_at("MNQ"@, 3);
    lemma_code_listed_at("YM"@, 4);
    lemma_code_listed_at("MYM"@, 5);
    lemma_code_listed_at("RTY"@, 6);
    lemma_code_listed_at("M2K"@, 7);
    lemma_code_listed_at("CL"@, 8);
    lemma_code_listed_at("MCL"@, 9);
    lemma_code_listed_at("GC"@, 10);
    lemma_code_listed_at("MGC"@, 11);
    lemma_code_listed_at("NKD"@, 12);
    assert forall|k: int| 0 <= k < table().len() implies #[trigger] parses_to_row(table()[k]) by {
        if k == 0 {
        } else if k == 1 {
        } else if k == 2 {
        } else if k == 3 {
        } else if k == 4 {
        } else if k == 5 {
        } else {
        }
    }
}

} // verus!
