//! Sierra Chart `TradeActivityLogs/TradeActivityLog_*.data` (TLV records).
//!
//! File layout: optional version field `1`, then records that start at field
//! `100` and end at field `199`. Activity type `2` is an order fill. Each field
//! is a little-endian `u32` code, a `u32` length and that many payload bytes.
//! Quantities and prices are `f64` values; the library keeps their bit patterns.

use vstd::prelude::*;
use vstd::utf8::{decode_utf8, encode_utf8, valid_utf8};
use crate::dates::{utc_datetime_of_millis, utc_datetime_text};
use crate::journal::JournalError;
use crate::scid::{
    le_i64_at, le_u32_at, le_u64_at, ole_to_unix_spec, ole_us_to_unix_ms, read_i64_le,
    read_u32_le, read_u64_le, UNIX_EPOCH_SC_US,
};
use crate::text::{chars_of, decimal_i64, decimal_int, decimal_nat, decimal_u64, push_all, text_from_chars};

verus! {

pub const FIELD_VERSION: u32 = 1;

pub const FIELD_BEGIN: u32 = 100;

pub const FIELD_ACTIVITY_TYPE: u32 = 101;

pub const FIELD_DATETIME: u32 = 102;

pub const FIELD_SYMBOL: u32 = 103;

pub const FIELD_QTY: u32 = 108;

pub const FIELD_BUY_SELL: u32 = 109;

pub const FIELD_FILL_PRICE: u32 = 110;

pub const FIELD_FILL_PRICE_ALT: u32 = 113;

pub const FIELD_ACCOUNT: u32 = 118;

pub const FIELD_POS_QTY: u32 = 125;

pub const FIELD_END: u32 = 199;

pub const ACTIVITY_FILL: u32 = 2;

// ------------------------------------------------------------ text payloads

/// `String::from_utf8_lossy(b)`: the bytes decoded, each invalid sequence as U+FFFD.
pub uninterp spec fn utf8_lossy_text(b: Seq<u8>) -> Seq<char>;

/// Calls `String::from_utf8_lossy`. Claimed: the result is [`utf8_lossy_text`]
/// of the bytes, and the plain decoding when the bytes are valid UTF-8 (std
/// documents that valid input comes back unchanged).
#[verifier::external_body]
pub(crate) fn utf8_lossy(b: &[u8]) -> (s: String)
    ensures
        s@ == utf8_lossy_text(b@),
        valid_utf8(b@) ==> s@ == decode_utf8(b@),
{
    String::from_utf8_lossy(b).into_owned()
}

/// Trailing NUL characters removed.
pub open spec fn trim_end_nul(s: Seq<char>) -> Seq<char>
    decreases s.len(),
{
    if s.len() > 0 && s.last() == '\0' {
        trim_end_nul(s.drop_last())
    } else {
        s
    }
}

/// Bytes read as text: the decoding of valid UTF-8, else the lossy reading.
pub open spec fn lossy_text(b: Seq<u8>) -> Seq<char> {
    if valid_utf8(b) {
        decode_utf8(b)
    } else {
        utf8_lossy_text(b)
    }
}

/// A text payload: lossy UTF-8 without trailing NULs.
pub open spec fn str_val_spec(b: Seq<u8>) -> Seq<char> {
    trim_end_nul(lossy_text(b))
}

pub fn str_val(b: &[u8]) -> (s: String)
    ensures
        s@ == str_val_spec(b@),
{
    let text = utf8_lossy(b);
    let c = chars_of(text.as_str());
    let mut n = c.len();
    assert(c@.subrange(0, n as int) =~= c@);
    while n > 0 && c[n - 1] == '\0'
        invariant
            n <= c@.len(),
            trim_end_nul(c@) == trim_end_nul(c@.subrange(0, n as int)),
        decreases n,
    {
        assert(c@.subrange(0, n as int).drop_last() =~= c@.subrange(0, n - 1));
        n = n - 1;
    }
    assert(c@.subrange(0, n as int) == trim_end_nul(c@.subrange(0, n as int)));
    let mut r: Vec<char> = Vec::new();
    for i in 0..n
        invariant
            n <= c@.len(),
            r@ == c@.subrange(0, i as int),
    {
        r.push(c[i]);
        assert(c@.subrange(0, i + 1) =~= c@.subrange(0, i as int).push(c@[i as int]));
    }
    proof {
        assert(c@.subrange(0, c@.len() as int) =~= c@);
    }
    text_from_chars(&r)
}

// ------------------------------------------------------------ TLV

pub open spec fn field_views(v: Seq<(u32, Vec<u8>)>) -> Seq<(u32, Seq<u8>)> {
    Seq::new(v.len(), |k: int| (v[k].0, v[k].1@))
}

/// The fields of a TLV buffer, or (code, length) of the first field whose
/// payload runs past the end. A trailing piece shorter than a header is ignored.
pub open spec fn tlv_spec(s: Seq<u8>) -> Result<Seq<(u32, Seq<u8>)>, (u32, u32)>
    decreases s.len(),
{
    if s.len() < 8 {
        Ok(Seq::empty())
    } else {
        let code = le_u32_at(s, 0) as u32;
        let len = le_u32_at(s, 4) as int;
        if len > s.len() - 8 {
            Err((code, len as u32))
        } else {
            match tlv_spec(s.subrange(8 + len, s.len() as int)) {
                Ok(rest) => Ok(seq![(code, s.subrange(8, 8 + len))] + rest),
                Err(e) => Err(e),
            }
        }
    }
}

/// The error text for a field that overruns the buffer.
pub open spec fn overrun_message(code: u32, len: u32) -> Seq<char> {
    "activity field "@ + decimal_nat(code as nat) + " length "@ + decimal_nat(len as nat)
        + " overruns file"@
}

fn copy_range(b: &[u8], from: usize, to: usize) -> (r: Vec<u8>)
    requires
        from <= to <= b@.len(),
    ensures
        r@ == b@.subrange(from as int, to as int),
{
    let mut r: Vec<u8> = Vec::new();
    let mut i = from;
    while i < to
        invariant
            from <= i <= to <= b@.len(),
            r@ == b@.subrange(from as int, i as int),
        decreases to - i,
    {
        r.push(b[i]);
        assert(b@.subrange(from as int, i + 1) =~= b@.subrange(from as int, i as int).push(b@[i as int]));
        i = i + 1;
    }
    r
}

/// Splits a TLV buffer into (code, payload) fields.
pub fn parse_tlv(bytes: &[u8]) -> (r: Result<Vec<(u32, Vec<u8>)>, JournalError>)
    ensures
        match r {
            Ok(v) => tlv_spec(bytes@) == Ok::<Seq<(u32, Seq<u8>)>, (u32, u32)>(field_views(v@)),
            Err(JournalError::Parse(m)) => tlv_spec(bytes@) matches Err((code, len)) && m@
                == overrun_message(code, len),
        },
{
    let n = bytes.len();
    let mut out: Vec<(u32, Vec<u8>)> = Vec::new();
    let mut i: usize = 0;
    assert(bytes@.subrange(0, n as int) =~= bytes@);
    while n - i >= 8
        invariant
            i <= n,
            n == bytes@.len(),
            match tlv_spec(bytes@.subrange(i as int, n as int)) {
                Ok(rest) => tlv_spec(bytes@) == Ok::<Seq<(u32, Seq<u8>)>, (u32, u32)>(
                    field_views(out@) + rest,
                ),
                Err(e) => tlv_spec(bytes@) == Err::<Seq<(u32, Seq<u8>)>, (u32, u32)>(e),
            },
        decreases n - i,
    {
        let ghost s = bytes@.subrange(i as int, n as int);
        let code = read_u32_le(bytes, i);
        let len = read_u32_le(bytes, i + 4);
        proof {
            assert(le_u32_at(s, 0) == le_u32_at(bytes@, i as int));
            assert(le_u32_at(s, 4) == le_u32_at(bytes@, i + 4));
        }
        if len as usize > n - (i + 8) {
            let mut m = chars_of("activity field ");
            push_all(&mut m, &decimal_u64(code as u64));
            push_all(&mut m, &chars_of(" length "));
            push_all(&mut m, &decimal_u64(len as u64));
            push_all(&mut m, &chars_of(" overruns file"));
            return Err(JournalError::Parse(text_from_chars(&m)));
        }
        let payload = copy_range(bytes, i + 8, i + 8 + len as usize);
        proof {
            assert(s.subrange(8, 8 + len) =~= bytes@.subrange(i + 8, i + 8 + len));
            assert(s.subrange(8 + len, s.len() as int) =~= bytes@.subrange(i + 8 + len, n as int));
        }
        let ghost before = field_views(out@);
        out.push((code, payload));
        proof {
            assert(field_views(out@) =~= before.push((code, bytes@.subrange(i + 8, i + 8 + len))));
            match tlv_spec(bytes@.subrange(i + 8 + len, n as int)) {
                Ok(rest) => {
                    assert(field_views(out@) + rest =~= before + (seq![(code, bytes@.subrange(i + 8, i + 8 + len))] + rest));
                },
                Err(_) => {},
            }
        }
        i = i + 8 + len as usize;
    }
    proof {
        assert(field_views(out@) + Seq::<(u32, Seq<u8>)>::empty() =~= field_views(out@));
    }
    Ok(out)
}

// ------------------------------------------------------------ writing fields

/// `u32::to_le_bytes`.
pub open spec fn le_bytes_u32(x: u32) -> Seq<u8> {
    seq![x as u8, (x >> 8) as u8, (x >> 16) as u8, (x >> 24) as u8]
}

/// One field as the log stores it: code, payload length, payload.
pub open spec fn field_bytes(code: u32, payload: Seq<u8>) -> Seq<u8> {
    le_bytes_u32(code) + le_bytes_u32(payload.len() as u32) + payload
}

/// Fields written one after another.
pub open spec fn tlv_encode(fields: Seq<(u32, Seq<u8>)>) -> Seq<u8>
    decreases fields.len(),
{
    if fields.len() == 0 {
        Seq::empty()
    } else {
        field_bytes(fields[0].0, fields[0].1) + tlv_encode(fields.drop_first())
    }
}

/// Appends one field to a log buffer.
pub fn push_field(out: &mut Vec<u8>, code: u32, payload: &[u8])
    requires
        payload@.len() <= u32::MAX,
    ensures
        final(out)@ == old(out)@ + field_bytes(code, payload@),
{
    let len = payload.len() as u32;
    out.push(code as u8);
    out.push((code >> 8) as u8);
    out.push((code >> 16) as u8);
    out.push((code >> 24) as u8);
    out.push(len as u8);
    out.push((len >> 8) as u8);
    out.push((len >> 16) as u8);
    out.push((len >> 24) as u8);
    let ghost head = out@;
    for i in 0..payload.len()
        invariant
            out@ == head + payload@.take(i as int),
    {
        out.push(payload[i]);
        assert(payload@.take(i + 1) =~= payload@.take(i as int).push(payload@[i as int]));
    }
    assert(payload@.take(payload@.len() as int) =~= payload@);
    assert(out@ =~= old(out)@ + field_bytes(code, payload@));
}

proof fn lemma_le_bytes_u32(x: u32, rest: Seq<u8>)
    ensures
        le_u32_at(le_bytes_u32(x) + rest, 0) == x,
{
    let s = le_bytes_u32(x) + rest;
    let b0 = x as u8;
    let b1 = (x >> 8) as u8;
    let b2 = (x >> 16) as u8;
    let b3 = (x >> 24) as u8;
    assert(s[0] == b0 && s[1] == b1 && s[2] == b2 && s[3] == b3);
    assert(b0 as int + 256 * b1 as int + 65536 * b2 as int + 16777216 * b3 as int == x as int)
        by (bit_vector)
        requires
            b0 == x as u8,
            b1 == (x >> 8) as u8,
            b2 == (x >> 16) as u8,
            b3 == (x >> 24) as u8,
    ;
}

proof fn lemma_tlv_field(code: u32, p: Seq<u8>, tail: Seq<u8>)
    requires
        p.len() <= u32::MAX,
    ensures
        tlv_spec(field_bytes(code, p) + tail) == match tlv_spec(tail) {
            Ok(r) => Ok::<Seq<(u32, Seq<u8>)>, (u32, u32)>(seq![(code, p)] + r),
            Err(e) => Err(e),
        },
{
    let s = field_bytes(code, p) + tail;
    let len_bytes = le_bytes_u32(p.len() as u32);
    assert(s =~= le_bytes_u32(code) + (len_bytes + p + tail));
    lemma_le_bytes_u32(code, len_bytes + p + tail);
    assert(s.subrange(4, s.len() as int) =~= len_bytes + (p + tail));
    lemma_le_bytes_u32(p.len() as u32, p + tail);
    assert(le_u32_at(s, 4) == le_u32_at(s.subrange(4, s.len() as int), 0));
    assert(s.subrange(8, 8 + p.len() as int) =~= p);
    assert(s.subrange(8 + p.len() as int, s.len() as int) =~= tail);
}

/// Reading back written fields gives the fields.
#[verifier::spinoff_prover]
pub proof fn lemma_tlv_reads_back(fields: Seq<(u32, Seq<u8>)>)
    requires
        forall|k: int| 0 <= k < fields.len() ==> (#[trigger] fields[k]).1.len() <= u32::MAX,
    ensures
        tlv_spec(tlv_encode(fields)) == Ok::<Seq<(u32, Seq<u8>)>, (u32, u32)>(fields),
    decreases fields.len(),
{
    if fields.len() == 0 {
        assert(fields =~= Seq::<(u32, Seq<u8>)>::empty());
    } else {
        let rest = fields.drop_first();
        assert forall|k: int| 0 <= k < rest.len() implies (#[trigger] rest[k]).1.len() <= u32::MAX by {
            assert(rest[k] == fields[k + 1]);
        }
        lemma_tlv_reads_back(rest);
        assert(fields[0].1.len() <= u32::MAX);
        lemma_tlv_field(fields[0].0, fields[0].1, tlv_encode(rest));
        assert(seq![(fields[0].0, fields[0].1)] + rest =~= fields);
    }
}

// ------------------------------------------------------------ records

/// (records closed so far, the record being read).
pub open spec fn rec_step(
    st: (Seq<Seq<(u32, Seq<u8>)>>, Seq<(u32, Seq<u8>)>),
    f: (u32, Seq<u8>),
) -> (Seq<Seq<(u32, Seq<u8>)>>, Seq<(u32, Seq<u8>)>) {
    if f.0 == FIELD_VERSION {
        st
    } else if f.0 == FIELD_BEGIN {
        (st.0.push(st.1), seq![f])
    } else {
        let cur = st.1.push(f);
        if f.0 == FIELD_END {
            (st.0.push(cur), Seq::empty())
        } else {
            (st.0, cur)
        }
    }
}

pub open spec fn rec_fold(fields: Seq<(u32, Seq<u8>)>) -> (Seq<Seq<(u32, Seq<u8>)>>, Seq<(u32, Seq<u8>)>)
    decreases fields.len(),
{
    if fields.len() == 0 {
        (Seq::empty(), Seq::empty())
    } else {
        rec_step(rec_fold(fields.drop_last()), fields.last())
    }
}

/// Each record the file holds, the last one unterminated.
pub open spec fn records_of(fields: Seq<(u32, Seq<u8>)>) -> Seq<Seq<(u32, Seq<u8>)>> {
    let st = rec_fold(fields);
    st.0.push(st.1)
}

/// The payload a record last gave for `code` (a later field replaces an earlier one).
pub open spec fn lookup(rec: Seq<(u32, Seq<u8>)>, code: u32) -> Option<Seq<u8>>
    decreases rec.len(),
{
    if rec.len() == 0 {
        None
    } else if rec.last().0 == code {
        Some(rec.last().1)
    } else {
        lookup(rec.drop_last(), code)
    }
}

pub open spec fn u32_of(b: Seq<u8>) -> Option<nat> {
    if b.len() >= 4 {
        Some(le_u32_at(b, 0))
    } else {
        None
    }
}

pub open spec fn u64_of(b: Seq<u8>) -> Option<u64> {
    if b.len() >= 8 {
        Some(le_u64_at(b, 0) as u64)
    } else {
        None
    }
}

pub open spec fn i64_of(b: Seq<u8>) -> Option<i64> {
    if b.len() >= 8 {
        Some(le_i64_at(b, 0) as i64)
    } else {
        None
    }
}

/// A fill read from the log; quantities and prices are `f64` bit patterns.
pub struct ActivityFill {
    pub symbol: String,
    pub account: String,
    /// First byte of the buy/sell field, 0 when absent.
    pub side: i32,
    /// Quantity bits; `None` when the quantity field is shorter than 8 bytes.
    pub qty_bits: Option<u64>,
    /// Fill price bits (the main price field, else the alternate one).
    pub price_bits: u64,
    pub pos_qty_bits: Option<u64>,
    /// UTC `YYYY-MM-DD HH:MM:SS`, or the Unix milliseconds when out of range.
    pub ts: String,
}

pub ghost struct ActivityFillView {
    pub symbol: Seq<char>,
    pub account: Seq<char>,
    pub side: i32,
    pub qty_bits: Option<u64>,
    pub price_bits: u64,
    pub pos_qty_bits: Option<u64>,
    pub ts: Seq<char>,
}

impl View for ActivityFill {
    type V = ActivityFillView;

    open spec fn view(&self) -> ActivityFillView {
        ActivityFillView {
            symbol: self.symbol@,
            account: self.account@,
            side: self.side,
            qty_bits: self.qty_bits,
            price_bits: self.price_bits,
            pos_qty_bits: self.pos_qty_bits,
            ts: self.ts@,
        }
    }
}

pub open spec fn price_bits_of(rec: Seq<(u32, Seq<u8>)>) -> Option<u64> {
    match lookup(rec, FIELD_FILL_PRICE) {
        Some(b) if b.len() >= 8 => u64_of(b),
        _ => match lookup(rec, FIELD_FILL_PRICE_ALT) {
            Some(b) => u64_of(b),
            None => None,
        },
    }
}

/// Everything a record must have before its time is read: fill type, a
/// symbol, a quantity field and a price.
pub open spec fn fill_ready(rec: Seq<(u32, Seq<u8>)>) -> bool {
    &&& lookup(rec, FIELD_ACTIVITY_TYPE) matches Some(t) && u32_of(t) == Some(ACTIVITY_FILL as nat)
    &&& lookup(rec, FIELD_SYMBOL) matches Some(sb) && str_val_spec(sb).len() > 0
    &&& lookup(rec, FIELD_QTY) is Some
    &&& price_bits_of(rec) is Some
}

/// The time of a ready record can be converted without overflow.
pub open spec fn record_time_ok(rec: Seq<(u32, Seq<u8>)>) -> bool {
    fill_ready(rec) ==> match lookup(rec, FIELD_DATETIME) {
        Some(db) => match i64_of(db) {
            Some(ole) => ole >= i64::MIN + UNIX_EPOCH_SC_US,
            None => true,
        },
        None => true,
    }
}

/// The time of a fill written as SCDateTime `ole`: UTC `YYYY-MM-DD HH:MM:SS`,
/// or the Unix milliseconds where chrono cannot format them.
pub open spec fn fill_time_text(ole: i64) -> Seq<char> {
    let ms = ole_to_unix_spec(ole as int) as i64;
    match utc_datetime_text(ms) {
        Some(t) => t,
        None => decimal_int(ms as int),
    }
}

/// The fill a record describes, if it is a complete fill record.
pub open spec fn fill_spec(rec: Seq<(u32, Seq<u8>)>) -> Option<ActivityFillView> {
    if !fill_ready(rec) {
        None
    } else {
        match lookup(rec, FIELD_DATETIME) {
            None => None,
            Some(db) => match i64_of(db) {
                None => None,
                Some(ole) => {
                    Some(
                        ActivityFillView {
                            symbol: str_val_spec(lookup(rec, FIELD_SYMBOL).unwrap()),
                            account: match lookup(rec, FIELD_ACCOUNT) {
                                Some(b) => str_val_spec(b),
                                None => Seq::empty(),
                            },
                            side: match lookup(rec, FIELD_BUY_SELL) {
                                Some(b) => if b.len() > 0 {
                                    b[0] as i32
                                } else {
                                    0
                                },
                                None => 0,
                            },
                            qty_bits: u64_of(lookup(rec, FIELD_QTY).unwrap()),
                            price_bits: price_bits_of(rec).unwrap(),
                            pos_qty_bits: match lookup(rec, FIELD_POS_QTY) {
                                Some(b) => u64_of(b),
                                None => None,
                            },
                            ts: fill_time_text(ole),
                        },
                    )
                },
            },
        }
    }
}

/// The fills of a list of records, in order.
pub open spec fn fills_of(recs: Seq<Seq<(u32, Seq<u8>)>>) -> Seq<ActivityFillView>
    decreases recs.len(),
{
    if recs.len() == 0 {
        Seq::empty()
    } else {
        let r = fills_of(recs.drop_last());
        match fill_spec(recs.last()) {
            Some(f) => r.push(f),
            None => r,
        }
    }
}

pub open spec fn fill_views(v: Seq<ActivityFill>) -> Seq<ActivityFillView> {
    Seq::new(v.len(), |k: int| v[k]@)
}

fn lookup_exec(rec: &Vec<(u32, Vec<u8>)>, code: u32) -> (r: Option<usize>)
    ensures
        match r {
            Some(k) => k < rec@.len() && lookup(field_views(rec@), code) == Some(rec@[k as int].1@),
            None => lookup(field_views(rec@), code) is None,
        },
{
    let mut n = rec.len();
    assert(field_views(rec@).subrange(0, n as int) =~= field_views(rec@));
    while n > 0
        invariant
            n <= rec@.len(),
            lookup(field_views(rec@), code) == lookup(field_views(rec@).subrange(0, n as int), code),
        decreases n,
    {
        let ghost sub = field_views(rec@).subrange(0, n as int);
        assert(sub.drop_last() =~= field_views(rec@).subrange(0, n - 1));
        if rec[n - 1].0 == code {
            return Some(n - 1);
        }
        n = n - 1;
    }
    None
}

fn u64_bits(b: &Vec<u8>) -> (r: Option<u64>)
    ensures
        r == u64_of(b@),
{
    if b.len() >= 8 {
        Some(read_u64_le(b.as_slice(), 0))
    } else {
        None
    }
}

/// Whether a record's time can be read (see [`record_time_ok`]).
pub fn record_time_in_range(rec: &Vec<(u32, Vec<u8>)>) -> (b: bool)
    ensures
        b == record_time_ok(field_views(rec@)),
{
    if !record_ready(rec) {
        return true;
    }
    match lookup_exec(rec, FIELD_DATETIME) {
        Some(k) => {
            let db = &rec[k].1;
            if db.len() >= 8 {
                read_i64_le(db.as_slice(), 0) >= i64::MIN + UNIX_EPOCH_SC_US
            } else {
                true
            }
        },
        None => true,
    }
}

fn price_bits_exec(rec: &Vec<(u32, Vec<u8>)>) -> (r: Option<u64>)
    ensures
        r == price_bits_of(field_views(rec@)),
{
    match lookup_exec(rec, FIELD_FILL_PRICE) {
        Some(k) if rec[k].1.len() >= 8 => u64_bits(&rec[k].1),
        _ => match lookup_exec(rec, FIELD_FILL_PRICE_ALT) {
            Some(k) => u64_bits(&rec[k].1),
            None => None,
        },
    }
}

fn record_ready(rec: &Vec<(u32, Vec<u8>)>) -> (b: bool)
    ensures
        b == fill_ready(field_views(rec@)),
{
    let t = match lookup_exec(rec, FIELD_ACTIVITY_TYPE) {
        Some(k) => k,
        None => return false,
    };
    let tb = &rec[t].1;
    if tb.len() < 4 || read_u32_le(tb.as_slice(), 0) != ACTIVITY_FILL {
        return false;
    }
    let s = match lookup_exec(rec, FIELD_SYMBOL) {
        Some(k) => k,
        None => return false,
    };
    if str_val(rec[s].1.as_slice()).as_str().is_empty() {
        return false;
    }
    if lookup_exec(rec, FIELD_QTY).is_none() {
        return false;
    }
    price_bits_exec(rec).is_some()
}

/// The fill of a record (`None` unless it is a complete fill record).
pub fn fill_from_record(rec: &Vec<(u32, Vec<u8>)>) -> (r: Option<ActivityFill>)
    requires
        record_time_ok(field_views(rec@)),
    ensures
        match r {
            Some(f) => fill_spec(field_views(rec@)) == Some(f@),
            None => fill_spec(field_views(rec@)) is None,
        },
{
    if !record_ready(rec) {
        return None;
    }
    let d = match lookup_exec(rec, FIELD_DATETIME) {
        Some(k) => k,
        None => return None,
    };
    let db = &rec[d].1;
    if db.len() < 8 {
        return None;
    }
    let ole = read_i64_le(db.as_slice(), 0);
    let ms = ole_us_to_unix_ms(ole);
    let sk = lookup_exec(rec, FIELD_SYMBOL).unwrap();
    let symbol = str_val(rec[sk].1.as_slice());
    let account = match lookup_exec(rec, FIELD_ACCOUNT) {
        Some(k) => str_val(rec[k].1.as_slice()),
        None => String::new(),
    };
    let side: i32 = match lookup_exec(rec, FIELD_BUY_SELL) {
        Some(k) => if rec[k].1.len() > 0 {
            rec[k].1[0] as i32
        } else {
            0
        },
        None => 0,
    };
    let qk = lookup_exec(rec, FIELD_QTY).unwrap();
    let qty_bits = u64_bits(&rec[qk].1);
    let price_bits = price_bits_exec(rec).unwrap();
    let pos_qty_bits = match lookup_exec(rec, FIELD_POS_QTY) {
        Some(k) => u64_bits(&rec[k].1),
        None => None,
    };
    let ts = match utc_datetime_of_millis(ms) {
        Some(t) => t,
        None => text_from_chars(&decimal_i64(ms)),
    };
    Some(ActivityFill { symbol, account, side, qty_bits, price_bits, pos_qty_bits, ts })
}

fn copy_field(f: &(u32, Vec<u8>)) -> (r: (u32, Vec<u8>))
    ensures
        r.0 == f.0,
        r.1@ == f.1@,
{
    let mut v: Vec<u8> = Vec::new();
    for i in 0..f.1.len()
        invariant
            v@ == f.1@.take(i as int),
    {
        v.push(f.1[i]);
        assert(f.1@.take(i + 1) =~= f.1@.take(i as int).push(f.1@[i as int]));
    }
    assert(f.1@.take(f.1@.len() as int) =~= f.1@);
    (f.0, v)
}

pub open spec fn recs_view(v: Seq<Vec<(u32, Vec<u8>)>>) -> Seq<Seq<(u32, Seq<u8>)>> {
    Seq::new(v.len(), |k: int| field_views(v[k]@))
}

/// Groups fields into records: a record opens at field 100 (closing the one
/// before) and closes after field 199; version fields are skipped.
pub fn activity_records(fields: &Vec<(u32, Vec<u8>)>) -> (r: Vec<Vec<(u32, Vec<u8>)>>)
    ensures
        recs_view(r@) == records_of(field_views(fields@)),
{
    let mut done: Vec<Vec<(u32, Vec<u8>)>> = Vec::new();
    let mut cur: Vec<(u32, Vec<u8>)> = Vec::new();
    let ghost fv = field_views(fields@);
    assert(fv.take(0) =~= Seq::<(u32, Seq<u8>)>::empty());
    assert(recs_view(done@) =~= Seq::<Seq<(u32, Seq<u8>)>>::empty());
    assert(field_views(cur@) =~= Seq::<(u32, Seq<u8>)>::empty());
    for i in 0..fields.len()
        invariant
            fv == field_views(fields@),
            (recs_view(done@), field_views(cur@)) == rec_fold(fv.take(i as int)),
    {
        proof {
            assert(fv.take(i + 1).drop_last() =~= fv.take(i as int));
            assert(fv.take(i + 1).last() == fv[i as int]);
        }
        let f = copy_field(&fields[i]);
        let code = f.0;
        let ghost fview = (f.0, f.1@);
        assert(fview == fv[i as int]);
        let ghost d0 = recs_view(done@);
        let ghost c0 = field_views(cur@);
        if code == FIELD_VERSION {
        } else if code == FIELD_BEGIN {
            done.push(cur);
            cur = Vec::new();
            cur.push(f);
            assert(recs_view(done@) =~= d0.push(c0));
            assert(field_views(cur@) =~= seq![fview]);
        } else {
            cur.push(f);
            assert(field_views(cur@) =~= c0.push(fview));
            if code == FIELD_END {
                let ghost c1 = field_views(cur@);
                done.push(cur);
                cur = Vec::new();
                assert(recs_view(done@) =~= d0.push(c1));
                assert(field_views(cur@) =~= Seq::<(u32, Seq<u8>)>::empty());
            }
        }
    }
    assert(fv.take(fv.len() as int) =~= fv);
    let ghost d0 = recs_view(done@);
    let ghost c0 = field_views(cur@);
    done.push(cur);
    assert(recs_view(done@) =~= d0.push(c0));
    done
}

/// Every ready record in `recs` has a readable time.
pub open spec fn all_times_ok(recs: Seq<Seq<(u32, Seq<u8>)>>) -> bool {
    forall|k: int| 0 <= k < recs.len() ==> record_time_ok(#[trigger] recs[k])
}

/// Every ready record of a parsable buffer has a readable time.
pub open spec fn activity_times_ok(bytes: Seq<u8>) -> bool {
    match tlv_spec(bytes) {
        Ok(fields) => all_times_ok(records_of(fields)),
        Err(_) => true,
    }
}

proof fn lemma_record_time_ok(bytes: Seq<u8>, fields: Seq<(u32, Seq<u8>)>, k: int)
    requires
        activity_times_ok(bytes),
        tlv_spec(bytes) == Ok::<Seq<(u32, Seq<u8>)>, (u32, u32)>(fields),
        0 <= k < records_of(fields).len(),
    ensures
        record_time_ok(records_of(fields)[k]),
{
    let recs = records_of(fields);
    assert(all_times_ok(recs));
    assert(record_time_ok(recs[k]));
}

/// Whether [`parse_activity_bytes`] can read every fill time of `bytes`.
pub fn activity_times_in_range(bytes: &[u8]) -> (b: bool)
    ensures
        b == activity_times_ok(bytes@),
{
    match parse_tlv(bytes) {
        Err(_) => true,
        Ok(fields) => {
            let recs = activity_records(&fields);
            for k in 0..recs.len()
                invariant
                    recs_view(recs@) == records_of(field_views(fields@)),
                    tlv_spec(bytes@) == Ok::<Seq<(u32, Seq<u8>)>, (u32, u32)>(field_views(fields@)),
                    forall|j: int| 0 <= j < k ==> record_time_ok(#[trigger] records_of(field_views(fields@))[j]),
            {
                assert(recs_view(recs@)[k as int] == field_views(recs@[k as int]@));
                if !record_time_in_range(&recs[k]) {
                    proof {
                        let recs_v = records_of(field_views(fields@));
                        assert(!record_time_ok(recs_v[k as int]));
                        assert(!all_times_ok(recs_v));
                    }
                    return false;
                }
            }
            true
        },
    }
}

/// The fills of an activity log, in file order.
pub fn parse_activity_bytes(bytes: &[u8]) -> (r: Result<Vec<ActivityFill>, JournalError>)
    requires
        activity_times_ok(bytes@),
    ensures
        match r {
            Ok(v) => tlv_spec(bytes@) matches Ok(fields) && fill_views(v@) == fills_of(records_of(fields)),
            Err(JournalError::Parse(m)) => tlv_spec(bytes@) matches Err((code, len)) && m@
                == overrun_message(code, len),
        },
{
    let fields = match parse_tlv(bytes) {
        Ok(f) => f,
        Err(e) => return Err(e),
    };
    let recs = activity_records(&fields);
    let ghost rv = records_of(field_views(fields@));
    let mut out: Vec<ActivityFill> = Vec::new();
    assert(rv.take(0) =~= Seq::<Seq<(u32, Seq<u8>)>>::empty());
    assert(fill_views(out@) =~= Seq::<ActivityFillView>::empty());
    for k in 0..recs.len()
        invariant
            recs_view(recs@) == rv,
            rv == records_of(field_views(fields@)),
            tlv_spec(bytes@) == Ok::<Seq<(u32, Seq<u8>)>, (u32, u32)>(field_views(fields@)),
            activity_times_ok(bytes@),
            fill_views(out@) == fills_of(rv.take(k as int)),
    {
        proof {
            assert(rv.take(k + 1).drop_last() =~= rv.take(k as int));
            assert(rv.take(k + 1).last() == rv[k as int]);
            assert(rv[k as int] == field_views(recs@[k as int]@));
            lemma_record_time_ok(bytes@, field_views(fields@), k as int);
        }
        let ghost before = fill_views(out@);
        match fill_from_record(&recs[k]) {
            Some(f) => {
                let ghost fv = f@;
                out.push(f);
                assert(fill_views(out@) =~= before.push(fv));
            },
            None => {},
        }
    }
    assert(rv.take(rv.len() as int) =~= rv);
    Ok(out)
}

// ------------------------------------------------------------ writing a fill

/// `u64::to_le_bytes`.
pub open spec fn le_bytes_u64(x: u64) -> Seq<u8> {
    seq![
        x as u8,
        (x >> 8) as u8,
        (x >> 16) as u8,
        (x >> 24) as u8,
        (x >> 32) as u8,
        (x >> 40) as u8,
        (x >> 48) as u8,
        (x >> 56) as u8,
    ]
}

/// The fields of one fill record as the log writes it, with its price under
/// field `price_code`: the version field, then a record from field 100 to
/// field 199 with fill type, time, symbol, quantity, side, price, account and
/// position. Quantities and prices are `f64` bit patterns; the time is
/// SCDateTime microseconds.
#[verifier::opaque]
pub open spec fn fill_fields_priced(
    price_code: u32,
    ole_us: i64,
    symbol: Seq<u8>,
    account: Seq<u8>,
    side: u8,
    qty_bits: u64,
    price_bits: u64,
    pos_qty_bits: u64,
) -> Seq<(u32, Seq<u8>)> {
    seq![
        (FIELD_VERSION, le_bytes_u64(2)),
        (FIELD_BEGIN, le_bytes_u64(u64::MAX)),
        (FIELD_ACTIVITY_TYPE, le_bytes_u32(ACTIVITY_FILL)),
        (FIELD_DATETIME, le_bytes_u64(ole_us as u64)),
        (FIELD_SYMBOL, symbol),
        (FIELD_QTY, le_bytes_u64(qty_bits)),
        (FIELD_BUY_SELL, seq![side]),
        (price_code, le_bytes_u64(price_bits)),
        (FIELD_ACCOUNT, account),
        (FIELD_POS_QTY, le_bytes_u64(pos_qty_bits)),
        (FIELD_END, Seq::<u8>::empty()),
    ]
}

/// The fields of one fill record with its price in the main price field.
pub open spec fn fill_record_fields(
    ole_us: i64,
    symbol: Seq<u8>,
    account: Seq<u8>,
    side: u8,
    qty_bits: u64,
    price_bits: u64,
    pos_qty_bits: u64,
) -> Seq<(u32, Seq<u8>)> {
    fill_fields_priced(FIELD_FILL_PRICE, ole_us, symbol, account, side, qty_bits, price_bits, pos_qty_bits)
}

fn u64_le_bytes(x: u64) -> (r: Vec<u8>)
    ensures
        r@ == le_bytes_u64(x),
{
    let r = vec![
        x as u8,
        (x >> 8) as u8,
        (x >> 16) as u8,
        (x >> 24) as u8,
        (x >> 32) as u8,
        (x >> 40) as u8,
        (x >> 48) as u8,
        (x >> 56) as u8,
    ];
    assert(r@ =~= le_bytes_u64(x));
    r
}

fn u32_le_bytes(x: u32) -> (r: Vec<u8>)
    ensures
        r@ == le_bytes_u32(x),
{
    let r = vec![x as u8, (x >> 8) as u8, (x >> 16) as u8, (x >> 24) as u8];
    assert(r@ =~= le_bytes_u32(x));
    r
}

proof fn lemma_tlv_encode_push(fields: Seq<(u32, Seq<u8>)>, f: (u32, Seq<u8>))
    ensures
        tlv_encode(fields.push(f)) == tlv_encode(fields) + field_bytes(f.0, f.1),
    decreases fields.len(),
{
    if fields.len() == 0 {
        let one = fields.push(f);
        assert(one.drop_first() =~= Seq::<(u32, Seq<u8>)>::empty());
        assert(one[0] == f);
        assert(tlv_encode(one.drop_first()) =~= Seq::<u8>::empty());
        assert(tlv_encode(fields) =~= Seq::<u8>::empty());
        assert(tlv_encode(one) =~= field_bytes(f.0, f.1));
    } else {
        lemma_tlv_encode_push(fields.drop_first(), f);
        assert(fields.push(f).drop_first() =~= fields.drop_first().push(f));
        assert(tlv_encode(fields.push(f)) =~= tlv_encode(fields) + field_bytes(f.0, f.1));
    }
}

fn push_next(out: &mut Vec<u8>, Ghost(done): Ghost<Seq<(u32, Seq<u8>)>>, code: u32, payload: &[u8])
    requires
        payload@.len() <= u32::MAX,
        old(out)@ == tlv_encode(done),
    ensures
        final(out)@ == tlv_encode(done.push((code, payload@))),
{
    push_field(out, code, payload);
    proof {
        lemma_tlv_encode_push(done, (code, payload@));
    }
}

/// One fill record in the activity-log layout (see [`fill_record_fields`]).
pub fn encode_fill_record(
    ole_us: i64,
    symbol: &[u8],
    account: &[u8],
    side: u8,
    qty_bits: u64,
    price_bits: u64,
    pos_qty_bits: u64,
) -> (r: Vec<u8>)
    requires
        symbol@.len() <= u32::MAX,
        account@.len() <= u32::MAX,
    ensures
        r@ == tlv_encode(
            fill_record_fields(ole_us, symbol@, account@, side, qty_bits, price_bits, pos_qty_bits),
        ),
{
    let ghost all = fill_record_fields(
        ole_us,
        symbol@,
        account@,
        side,
        qty_bits,
        price_bits,
        pos_qty_bits,
    );
    proof {
        reveal(fill_fields_priced);
    }
    let mut out: Vec<u8> = Vec::new();
    assert(out@ =~= tlv_encode(all.take(0)));
    push_next(&mut out, Ghost(all.take(0)), FIELD_VERSION, u64_le_bytes(2).as_slice());
    assert(all.take(0).push(all[0]) =~= all.take(1));
    push_next(&mut out, Ghost(all.take(1)), FIELD_BEGIN, u64_le_bytes(u64::MAX).as_slice());
    assert(all.take(1).push(all[1]) =~= all.take(2));
    push_next(&mut out, Ghost(all.take(2)), FIELD_ACTIVITY_TYPE, u32_le_bytes(ACTIVITY_FILL).as_slice());
    assert(all.take(2).push(all[2]) =~= all.take(3));
    push_next(&mut out, Ghost(all.take(3)), FIELD_DATETIME, u64_le_bytes(ole_us as u64).as_slice());
    assert(all.take(3).push(all[3]) =~= all.take(4));
    push_next(&mut out, Ghost(all.take(4)), FIELD_SYMBOL, symbol);
    assert(all.take(4).push(all[4]) =~= all.take(5));
    push_next(&mut out, Ghost(all.take(5)), FIELD_QTY, u64_le_bytes(qty_bits).as_slice());
    assert(all.take(5).push(all[5]) =~= all.take(6));
    let side_byte: Vec<u8> = vec![side];
    assert(side_byte@ =~= seq![side]);
    push_next(&mut out, Ghost(all.take(6)), FIELD_BUY_SELL, side_byte.as_slice());
    assert(all.take(6).push(all[6]) =~= all.take(7));
    push_next(&mut out, Ghost(all.take(7)), FIELD_FILL_PRICE, u64_le_bytes(price_bits).as_slice());
    assert(all.take(7).push(all[7]) =~= all.take(8));
    push_next(&mut out, Ghost(all.take(8)), FIELD_ACCOUNT, account);
    assert(all.take(8).push(all[8]) =~= all.take(9));
    push_next(&mut out, Ghost(all.take(9)), FIELD_POS_QTY, u64_le_bytes(pos_qty_bits).as_slice());
    assert(all.take(9).push(all[9]) =~= all.take(10));
    let empty: Vec<u8> = Vec::new();
    assert(empty@ =~= Seq::<u8>::empty());
    push_next(&mut out, Ghost(all.take(10)), FIELD_END, empty.as_slice());
    assert(all.take(10).push(all[10]) =~= all);
    out
}

proof fn lemma_le_bytes_u64(x: u64)
    ensures
        le_u64_at(le_bytes_u64(x), 0) == x,
{
    let s = le_bytes_u64(x);
    let b0 = x as u8;
    let b1 = (x >> 8) as u8;
    let b2 = (x >> 16) as u8;
    let b3 = (x >> 24) as u8;
    let b4 = (x >> 32) as u8;
    let b5 = (x >> 40) as u8;
    let b6 = (x >> 48) as u8;
    let b7 = (x >> 56) as u8;
    assert(s[0] == b0 && s[1] == b1 && s[2] == b2 && s[3] == b3);
    assert(s[4] == b4 && s[5] == b5 && s[6] == b6 && s[7] == b7);
    assert(b0 as int + 256 * b1 as int + 65536 * b2 as int + 16777216 * b3 as int + 4294967296 * (
    b4 as int + 256 * b5 as int + 65536 * b6 as int + 16777216 * b7 as int) == x as int)
        by (bit_vector)
        requires
            b0 == x as u8,
            b1 == (x >> 8) as u8,
            b2 == (x >> 16) as u8,
            b3 == (x >> 24) as u8,
            b4 == (x >> 32) as u8,
            b5 == (x >> 40) as u8,
            b6 == (x >> 48) as u8,
            b7 == (x >> 56) as u8,
    ;
}

proof fn lemma_le_bytes_i64(y: i64)
    ensures
        le_i64_at(le_bytes_u64(y as u64), 0) == y,
{
    let x = y as u64;
    lemma_le_bytes_u64(x);
    assert(y < 0 ==> (y as u64) >= 0x8000_0000_0000_0000u64) by (bit_vector);
    assert(y >= 0 ==> (y as u64) < 0x8000_0000_0000_0000u64) by (bit_vector);
    assert(y >= 0 ==> (y as u64) as int == y as int) by (bit_vector);
    assert(y < 0 ==> (y as u64) as int == y as int + 0x1_0000_0000_0000_0000) by (bit_vector);
}

proof fn lemma_lookup_at(rec: Seq<(u32, Seq<u8>)>, k: int, code: u32)
    requires
        0 <= k < rec.len(),
        rec[k].0 == code,
        forall|j: int| k < j < rec.len() ==> (#[trigger] rec[j]).0 != code,
    ensures
        lookup(rec, code) == Some(rec[k].1),
    decreases rec.len(),
{
    if k < rec.len() - 1 {
        let d = rec.drop_last();
        assert forall|j: int| k < j < d.len() implies (#[trigger] d[j]).0 != code by {
            assert(d[j] == rec[j]);
        }
        lemma_lookup_at(d, k, code);
    }
}

proof fn lemma_lookup_absent(rec: Seq<(u32, Seq<u8>)>, code: u32)
    requires
        forall|j: int| 0 <= j < rec.len() ==> (#[trigger] rec[j]).0 != code,
    ensures
        lookup(rec, code) is None,
    decreases rec.len(),
{
    if rec.len() > 0 {
        let d = rec.drop_last();
        assert forall|j: int| 0 <= j < d.len() implies (#[trigger] d[j]).0 != code by {
            assert(d[j] == rec[j]);
        }
        assert(rec.last() == rec[rec.len() - 1]);
        lemma_lookup_absent(d, code);
    }
}

/// The fold over a written fill record's fields, up to field `k`: the empty
/// record before field 100 is closed and the record is open from field 100.
proof fn lemma_fill_fold(f: Seq<(u32, Seq<u8>)>, k: int)
    requires
        f.len() == 11,
        2 <= k <= 10,
        f[0].0 == FIELD_VERSION,
        f[1].0 == FIELD_BEGIN,
        forall|j: int| 2 <= j < 10 ==> (#[trigger] f[j]).0 != FIELD_VERSION && f[j].0 != FIELD_BEGIN
            && f[j].0 != FIELD_END,
    ensures
        rec_fold(f.take(k)) == (seq![Seq::<(u32, Seq<u8>)>::empty()], f.subrange(1, k)),
    decreases k,
{
    assert(f.take(k).drop_last() =~= f.take(k - 1));
    assert(f.take(k).last() == f[k - 1]);
    if k == 2 {
        assert(f.take(1).drop_last() =~= f.take(0));
        assert(f.take(1).last() == f[0]);
        assert(f.take(0) =~= Seq::<(u32, Seq<u8>)>::empty());
        assert(rec_fold(f.take(0)) == (Seq::<Seq<(u32, Seq<u8>)>>::empty(), Seq::<(u32, Seq<u8>)>::empty()));
        assert(rec_fold(f.take(1)) == (Seq::<Seq<(u32, Seq<u8>)>>::empty(), Seq::<(u32, Seq<u8>)>::empty()));
        assert(seq![f[1]] =~= f.subrange(1, 2));
        assert(Seq::<Seq<(u32, Seq<u8>)>>::empty().push(Seq::<(u32, Seq<u8>)>::empty())
            =~= seq![Seq::<(u32, Seq<u8>)>::empty()]);
    } else {
        lemma_fill_fold(f, k - 1);
        assert(f.subrange(1, k - 1).push(f[k - 1]) =~= f.subrange(1, k));
    }
}

proof fn lemma_no_trailing_nul(s: Seq<char>)
    requires
        s.len() > 0 ==> s.last() != '\0',
    ensures
        trim_end_nul(s) == s,
{
}

/// The codes and payload lengths of a written fill record's fields.
proof fn lemma_written_shape(
    price_code: u32,
    ole_us: i64,
    sb: Seq<u8>,
    ab: Seq<u8>,
    side: u8,
    qty_bits: u64,
    price_bits: u64,
    pos_qty_bits: u64,
)
    requires
        price_code == FIELD_FILL_PRICE || price_code == FIELD_FILL_PRICE_ALT,
        sb.len() <= u32::MAX,
        ab.len() <= u32::MAX,
    ensures
        ({
            let f = fill_fields_priced(price_code, ole_us, sb, ab, side, qty_bits, price_bits, pos_qty_bits);
            &&& f.len() == 11
            &&& f[0].0 == FIELD_VERSION
            &&& f[1].0 == FIELD_BEGIN
            &&& f[10].0 == FIELD_END
            &&& forall|j: int| 2 <= j < 10 ==> (#[trigger] f[j]).0 != FIELD_VERSION && f[j].0
                != FIELD_BEGIN && f[j].0 != FIELD_END
            &&& forall|k: int| 0 <= k < f.len() ==> (#[trigger] f[k]).1.len() <= u32::MAX
        }),
{
    reveal(fill_fields_priced);
    let f = fill_fields_priced(price_code, ole_us, sb, ab, side, qty_bits, price_bits, pos_qty_bits);
    assert forall|j: int| 2 <= j < 10 implies (#[trigger] f[j]).0 != FIELD_VERSION && f[j].0
        != FIELD_BEGIN && f[j].0 != FIELD_END by {
        if j == 2 {
        } else if j == 3 {
        } else if j == 4 {
        } else if j == 5 {
        } else if j == 6 {
        } else if j == 7 {
        } else if j == 8 {
        } else {
        }
    }
    assert forall|k: int| 0 <= k < f.len() implies (#[trigger] f[k]).1.len() <= u32::MAX by {
        if k == 0 {
        } else if k == 1 {
        } else if k == 2 {
        } else if k == 3 {
        } else if k == 4 {
        } else if k == 5 {
        } else if k == 6 {
        } else if k == 7 {
        } else if k == 8 {
        } else if k == 9 {
        } else {
        }
    }
}

/// The records of a written fill record: the empty one before field 100,
/// the fill, and the empty one after field 199.
proof fn lemma_written_records(f: Seq<(u32, Seq<u8>)>)
    requires
        f.len() == 11,
        f[0].0 == FIELD_VERSION,
        f[1].0 == FIELD_BEGIN,
        f[10].0 == FIELD_END,
        forall|j: int| 2 <= j < 10 ==> (#[trigger] f[j]).0 != FIELD_VERSION && f[j].0 != FIELD_BEGIN
            && f[j].0 != FIELD_END,
    ensures
        records_of(f) == seq![Seq::<(u32, Seq<u8>)>::empty(), f.subrange(1, 11), Seq::<(u32, Seq<u8>)>::empty()],
{
    lemma_fill_fold(f, 10);
    assert(f.take(11) =~= f);
    assert(f.take(11).drop_last() =~= f.take(10));
    assert(f.take(11).last() == f[10]);
    assert(f.subrange(1, 10).push(f[10]) =~= f.subrange(1, 11));
    let e = Seq::<(u32, Seq<u8>)>::empty();
    assert(seq![e].push(f.subrange(1, 11)) =~= seq![e, f.subrange(1, 11)]);
    assert(records_of(f) =~= seq![e, f.subrange(1, 11), e]);
}

/// A buffer whose records are one fill record between two empty records
/// gives that one fill, and its time can be read.
#[verifier::spinoff_prover]
proof fn lemma_one_fill(
    bytes: Seq<u8>,
    f: Seq<(u32, Seq<u8>)>,
    r: Seq<(u32, Seq<u8>)>,
    v: ActivityFillView,
)
    requires
        tlv_spec(bytes) == Ok::<Seq<(u32, Seq<u8>)>, (u32, u32)>(f),
        records_of(f) == seq![Seq::<(u32, Seq<u8>)>::empty(), r, Seq::<(u32, Seq<u8>)>::empty()],
        fill_spec(r) == Some(v),
        record_time_ok(r),
    ensures
        activity_times_ok(bytes),
        tlv_spec(bytes) matches Ok(fields) && fills_of(records_of(fields)) == seq![v],
{
    let e = Seq::<(u32, Seq<u8>)>::empty();
    let recs = seq![e, r, e];
    assert(lookup(e, FIELD_ACTIVITY_TYPE) is None);
    assert(fill_spec(e) is None);
    assert(recs.drop_last() =~= seq![e, r]);
    assert(recs.last() == e);
    assert(seq![e, r].drop_last() =~= seq![e]);
    assert(seq![e, r].last() == r);
    assert(seq![e].drop_last() =~= Seq::<Seq<(u32, Seq<u8>)>>::empty());
    assert(seq![e].last() == e);
    assert(fills_of(Seq::<Seq<(u32, Seq<u8>)>>::empty()) =~= Seq::<ActivityFillView>::empty());
    assert(fills_of(seq![e]) =~= Seq::<ActivityFillView>::empty());
    assert(fills_of(seq![e, r]) =~= seq![v]);
    assert(fills_of(recs) =~= seq![v]);
    assert(record_time_ok(e));
    assert forall|k: int| 0 <= k < recs.len() implies record_time_ok(#[trigger] recs[k]) by {
        if k == 1 {
            assert(recs[k] == r);
        } else {
            assert(recs[k] == e);
        }
    }
    assert(all_times_ok(recs));
}

/// The view of the fill that a written record describes.
pub open spec fn written_fill(
    ole_us: i64,
    symbol: Seq<char>,
    account: Seq<char>,
    side: u8,
    qty_bits: u64,
    price_bits: u64,
    pos_qty_bits: u64,
) -> ActivityFillView {
    ActivityFillView {
        symbol,
        account,
        side: side as i32,
        qty_bits: Some(qty_bits),
        price_bits,
        pos_qty_bits: Some(pos_qty_bits),
        ts: fill_time_text(ole_us),
    }
}

#[verifier::rlimit(30)]
proof fn lemma_written_record_fill(
    price_code: u32,
    ole_us: i64,
    symbol: Seq<char>,
    account: Seq<char>,
    side: u8,
    qty_bits: u64,
    price_bits: u64,
    pos_qty_bits: u64,
)
    requires
        price_code == FIELD_FILL_PRICE || price_code == FIELD_FILL_PRICE_ALT,
        symbol.len() > 0,
        symbol.last() != '\0',
        account.len() > 0 ==> account.last() != '\0',
        ole_us >= i64::MIN + UNIX_EPOCH_SC_US,
    ensures
        ({
            let r = fill_fields_priced(
                price_code,
                ole_us,
                encode_utf8(symbol),
                encode_utf8(account),
                side,
                qty_bits,
                price_bits,
                pos_qty_bits,
            ).subrange(1, 11);
            &&& fill_spec(r) == Some(
                written_fill(ole_us, symbol, account, side, qty_bits, price_bits, pos_qty_bits),
            )
            &&& record_time_ok(r)
        }),
{
    broadcast use vstd::utf8::encode_utf8_valid_utf8, vstd::utf8::encode_utf8_decode_utf8;

    reveal(fill_fields_priced);
    let sb = encode_utf8(symbol);
    let ab = encode_utf8(account);
    let f = fill_fields_priced(price_code, ole_us, sb, ab, side, qty_bits, price_bits, pos_qty_bits);
    let r = f.subrange(1, 11);
    assert(r.len() == 10);
    if price_code == FIELD_FILL_PRICE_ALT {
        assert forall|j: int| 0 <= j < r.len() implies (#[trigger] r[j]).0 != FIELD_FILL_PRICE by {
            if j == 0 {
            } else if j == 1 {
            } else if j == 2 {
            } else if j == 3 {
            } else if j == 4 {
            } else if j == 5 {
            } else if j == 6 {
            } else if j == 7 {
            } else if j == 8 {
            } else {
            }
        }
        lemma_lookup_absent(r, FIELD_FILL_PRICE);
    }
    lemma_lookup_at(r, 1, FIELD_ACTIVITY_TYPE);
    lemma_lookup_at(r, 2, FIELD_DATETIME);
    lemma_lookup_at(r, 3, FIELD_SYMBOL);
    lemma_lookup_at(r, 4, FIELD_QTY);
    lemma_lookup_at(r, 5, FIELD_BUY_SELL);
    lemma_lookup_at(r, 6, price_code);
    lemma_lookup_at(r, 7, FIELD_ACCOUNT);
    lemma_lookup_at(r, 8, FIELD_POS_QTY);
    lemma_le_bytes_u32(ACTIVITY_FILL, Seq::<u8>::empty());
    assert(le_bytes_u32(ACTIVITY_FILL) + Seq::<u8>::empty() =~= le_bytes_u32(ACTIVITY_FILL));
    lemma_le_bytes_i64(ole_us);
    lemma_le_bytes_u64(qty_bits);
    lemma_le_bytes_u64(price_bits);
    lemma_le_bytes_u64(pos_qty_bits);
    lemma_no_trailing_nul(symbol);
    lemma_no_trailing_nul(account);
    assert(str_val_spec(sb) == symbol);
    assert(str_val_spec(ab) == account);
    assert(fill_ready(r));
}

proof fn lemma_priced_reads_back(
    price_code: u32,
    ole_us: i64,
    symbol: Seq<char>,
    account: Seq<char>,
    side: u8,
    qty_bits: u64,
    price_bits: u64,
    pos_qty_bits: u64,
)
    requires
        price_code == FIELD_FILL_PRICE || price_code == FIELD_FILL_PRICE_ALT,
        encode_utf8(symbol).len() <= u32::MAX,
        encode_utf8(account).len() <= u32::MAX,
        symbol.len() > 0,
        symbol.last() != '\0',
        account.len() > 0 ==> account.last() != '\0',
        ole_us >= i64::MIN + UNIX_EPOCH_SC_US,
    ensures
        ({
            let bytes = tlv_encode(
                fill_fields_priced(
                    price_code,
                    ole_us,
                    encode_utf8(symbol),
                    encode_utf8(account),
                    side,
                    qty_bits,
                    price_bits,
                    pos_qty_bits,
                ),
            );
            &&& activity_times_ok(bytes)
            &&& tlv_spec(bytes) matches Ok(fields) && fills_of(records_of(fields)) == seq![
                written_fill(ole_us, symbol, account, side, qty_bits, price_bits, pos_qty_bits),
            ]
        }),
{
    let f = fill_fields_priced(
        price_code,
        ole_us,
        encode_utf8(symbol),
        encode_utf8(account),
        side,
        qty_bits,
        price_bits,
        pos_qty_bits,
    );
    lemma_written_shape(
        price_code,
        ole_us,
        encode_utf8(symbol),
        encode_utf8(account),
        side,
        qty_bits,
        price_bits,
        pos_qty_bits,
    );
    lemma_tlv_reads_back(f);
    lemma_written_records(f);
    lemma_written_record_fill(
        price_code,
        ole_us,
        symbol,
        account,
        side,
        qty_bits,
        price_bits,
        pos_qty_bits,
    );
    lemma_one_fill(
        tlv_encode(f),
        f,
        f.subrange(1, 11),
        written_fill(ole_us, symbol, account, side, qty_bits, price_bits, pos_qty_bits),
    );
}

/// A fill record written by [`encode_fill_record`] reads back as that one
/// fill: its symbol, account, side, quantity, price and position bits, and its
/// time. This holds for a non-empty symbol, texts without trailing NULs (the
/// reader trims them), payloads whose length fits the `u32` length field, and
/// a time within the SCDateTime conversion's range.
pub proof fn lemma_fill_record_reads_back(
    ole_us: i64,
    symbol: Seq<char>,
    account: Seq<char>,
    side: u8,
    qty_bits: u64,
    price_bits: u64,
    pos_qty_bits: u64,
)
    requires
        encode_utf8(symbol).len() <= u32::MAX,
        encode_utf8(account).len() <= u32::MAX,
        symbol.len() > 0,
        symbol.last() != '\0',
        account.len() > 0 ==> account.last() != '\0',
        ole_us >= i64::MIN + UNIX_EPOCH_SC_US,
    ensures
        ({
            let bytes = tlv_encode(
                fill_record_fields(
                    ole_us,
                    encode_utf8(symbol),
                    encode_utf8(account),
                    side,
                    qty_bits,
                    price_bits,
                    pos_qty_bits,
                ),
            );
            &&& activity_times_ok(bytes)
            &&& tlv_spec(bytes) matches Ok(fields) && fills_of(records_of(fields)) == seq![
                written_fill(ole_us, symbol, account, side, qty_bits, price_bits, pos_qty_bits),
            ]
        }),
{
    lemma_priced_reads_back(
        FIELD_FILL_PRICE,
        ole_us,
        symbol,
        account,
        side,
        qty_bits,
        price_bits,
        pos_qty_bits,
    );
}

/// A fill record that holds its price only in the alternate price field
/// (113, no field 110) reads back as the same fill: the alternate field's
/// bits are its price. Same conditions as [`lemma_fill_record_reads_back`].
pub proof fn lemma_alt_price_fill_reads_back(
    ole_us: i64,
    symbol: Seq<char>,
    account: Seq<char>,
    side: u8,
    qty_bits: u64,
    price_bits: u64,
    pos_qty_bits: u64,
)
    requires
        encode_utf8(symbol).len() <= u32::MAX,
        encode_utf8(account).len() <= u32::MAX,
        symbol.len() > 0,
        symbol.last() != '\0',
        account.len() > 0 ==> account.last() != '\0',
        ole_us >= i64::MIN + UNIX_EPOCH_SC_US,
    ensures
        ({
            let bytes = tlv_encode(
                fill_fields_priced(
                    FIELD_FILL_PRICE_ALT,
                    ole_us,
                    encode_utf8(symbol),
                    encode_utf8(account),
                    side,
                    qty_bits,
                    price_bits,
                    pos_qty_bits,
                ),
            );
            &&& activity_times_ok(bytes)
            &&& tlv_spec(bytes) matches Ok(fields) && fills_of(records_of(fields)) == seq![
                written_fill(ole_us, symbol, account, side, qty_bits, price_bits, pos_qty_bits),
            ]
        }),
{
    lemma_priced_reads_back(
        FIELD_FILL_PRICE_ALT,
        ole_us,
        symbol,
        account,
        side,
        qty_bits,
        price_bits,
        pos_qty_bits,
    );
}

/// Which field gives a record's price: the main price field (110) when it
/// holds at least 8 bytes; otherwise the alternate field (113), read as a
/// little-endian `u64` when it holds at least 8 bytes; otherwise none.
pub proof fn lemma_price_field_choice(rec: Seq<(u32, Seq<u8>)>)
    ensures
        (lookup(rec, FIELD_FILL_PRICE) is Some && lookup(rec, FIELD_FILL_PRICE)->0.len() >= 8)
            ==> price_bits_of(rec) == Some(le_u64_at(lookup(rec, FIELD_FILL_PRICE)->0, 0) as u64),
        (lookup(rec, FIELD_FILL_PRICE) is None || lookup(rec, FIELD_FILL_PRICE)->0.len() < 8)
            && lookup(rec, FIELD_FILL_PRICE_ALT) is Some && lookup(rec, FIELD_FILL_PRICE_ALT)->0.len()
            >= 8 ==> price_bits_of(rec) == Some(
            le_u64_at(lookup(rec, FIELD_FILL_PRICE_ALT)->0, 0) as u64,
        ),
        (lookup(rec, FIELD_FILL_PRICE) is None || lookup(rec, FIELD_FILL_PRICE)->0.len() < 8) && (
        lookup(rec, FIELD_FILL_PRICE_ALT) is None || lookup(rec, FIELD_FILL_PRICE_ALT)->0.len() < 8)
            ==> price_bits_of(rec) is None,
{
}

} // verus!
