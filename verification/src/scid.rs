//! Sierra Chart `.scid` layout: a 56-byte header, then 40-byte records.
//!
//! The four price fields of a record are IEEE `f32` values; the library keeps
//! their bit patterns (`f32::from_bits` gives the price back).

use vstd::prelude::*;
use crate::text::{chars_of, eq_chars, is_prefix, lower_ascii, lower_seq, starts_with_chars, upper_ascii, upper_seq};

verus! {

/// `SCID` as little-endian u32 (`s_IntradayFileHeader::UNIQUE_HEADER_ID`).
pub const SCID_MAGIC: u32 = 0x4449_4353;

pub const HEADER_SIZE: u32 = 56;

pub const RECORD_SIZE: u32 = 40;

pub const VERSION: u16 = 1;

/// Microseconds per day. SCDateTime epoch is 1899-12-30; Unix is 1970-01-01 (25569 days later).
pub const MICROSECONDS_PER_DAY: i64 = 86_400_000_000;

pub const UNIX_EPOCH_SC_US: i64 = 25_569 * MICROSECONDS_PER_DAY;

// ------------------------------------------------------------ little endian

/// Little-endian `u32` at byte offset `o`.
pub open spec fn le_u32_at(s: Seq<u8>, o: int) -> nat {
    (s[o] + 256 * s[o + 1] + 65536 * s[o + 2] + 16777216 * s[o + 3]) as nat
}

/// Little-endian `u64` at byte offset `o`.
pub open spec fn le_u64_at(s: Seq<u8>, o: int) -> nat {
    le_u32_at(s, o) + 4294967296 * le_u32_at(s, o + 4)
}

/// Little-endian two's-complement `i64` at byte offset `o`.
pub open spec fn le_i64_at(s: Seq<u8>, o: int) -> int {
    let v = le_u64_at(s, o);
    if v >= 0x8000_0000_0000_0000 {
        v - 0x1_0000_0000_0000_0000
    } else {
        v as int
    }
}

/// `u32::from_le_bytes` of the four bytes at `o`.
pub fn read_u32_le(b: &[u8], o: usize) -> (r: u32)
    requires
        o + 4 <= b@.len(),
    ensures
        r as nat == le_u32_at(b@, o as int),
{
    (b[o] as u32) + (b[o + 1] as u32) * 256 + (b[o + 2] as u32) * 65536 + (b[o + 3] as u32)
        * 16777216
}

/// `u64::from_le_bytes` of the eight bytes at `o`.
pub fn read_u64_le(b: &[u8], o: usize) -> (r: u64)
    requires
        o + 8 <= b@.len(),
    ensures
        r as nat == le_u64_at(b@, o as int),
{
    let _len = b.len();
    let lo = read_u32_le(b, o);
    let hi = read_u32_le(b, o + 4);
    (lo as u64) + (hi as u64) * 4294967296
}

/// `i64::from_le_bytes` of the eight bytes at `o`.
pub fn read_i64_le(b: &[u8], o: usize) -> (r: i64)
    requires
        o + 8 <= b@.len(),
    ensures
        r as int == le_i64_at(b@, o as int),
{
    let v = read_u64_le(b, o);
    if v < 0x8000_0000_0000_0000u64 {
        v as i64
    } else {
        ((v - 0x8000_0000_0000_0000u64) as i64) + i64::MIN
    }
}

// ------------------------------------------------------------ header / records

/// The buffer starts with the bytes `S C I D`.
pub fn is_scid_magic(bytes: &[u8]) -> (b: bool)
    ensures
        b == (bytes@.len() >= 4 && bytes@[0] == 0x53 && bytes@[1] == 0x43 && bytes@[2] == 0x49
            && bytes@[3] == 0x44),
{
    bytes.len() >= 4 && bytes[0] == 0x53u8 && bytes[1] == 0x43u8 && bytes[2] == 0x49u8 && bytes[3]
        == 0x44u8
}

/// One intraday record; prices are `f32` bit patterns.
#[derive(Clone, Copy)]
pub struct ScidRecord {
    pub datetime_ole: i64,
    pub open_bits: u32,
    pub high_bits: u32,
    pub low_bits: u32,
    pub close_bits: u32,
    pub num_trades: u32,
    pub volume: u32,
    pub bid_volume: u32,
    pub ask_volume: u32,
}

/// The record that the first 40 bytes of `b` encode.
pub open spec fn record_of(b: Seq<u8>) -> ScidRecord {
    ScidRecord {
        datetime_ole: le_i64_at(b, 0) as i64,
        open_bits: le_u32_at(b, 8) as u32,
        high_bits: le_u32_at(b, 12) as u32,
        low_bits: le_u32_at(b, 16) as u32,
        close_bits: le_u32_at(b, 20) as u32,
        num_trades: le_u32_at(b, 24) as u32,
        volume: le_u32_at(b, 28) as u32,
        bid_volume: le_u32_at(b, 32) as u32,
        ask_volume: le_u32_at(b, 36) as u32,
    }
}

/// Decodes a 40-byte record; `None` when fewer than 40 bytes are given.
pub fn parse_record(bytes: &[u8]) -> (r: Option<ScidRecord>)
    ensures
        bytes@.len() < 40 ==> r is None,
        bytes@.len() >= 40 ==> r == Some(record_of(bytes@)),
{
    if bytes.len() < 40 {
        return None;
    }
    Some(
        ScidRecord {
            datetime_ole: read_i64_le(bytes, 0),
            open_bits: read_u32_le(bytes, 8),
            high_bits: read_u32_le(bytes, 12),
            low_bits: read_u32_le(bytes, 16),
            close_bits: read_u32_le(bytes, 20),
            num_trades: read_u32_le(bytes, 24),
            volume: read_u32_le(bytes, 28),
            bid_volume: read_u32_le(bytes, 32),
            ask_volume: read_u32_le(bytes, 36),
        },
    )
}

/// Number of whole records after the header of a file of `file_len` bytes.
pub fn record_count(file_len: u64) -> (n: u64)
    ensures
        file_len <= 56 ==> n == 0,
        file_len > 56 ==> n == (file_len - 56) / 40,
{
    if file_len <= HEADER_SIZE as u64 {
        0
    } else {
        (file_len - HEADER_SIZE as u64) / RECORD_SIZE as u64
    }
}

/// Byte offset of record `idx`.
pub fn record_offset(idx: u64) -> (o: u64)
    requires
        idx <= (u64::MAX - 56) / 40,
    ensures
        o == 56 + idx * 40,
{
    HEADER_SIZE as u64 + idx * RECORD_SIZE as u64
}

// ------------------------------------------------------------ time

/// Integer division rounding toward zero, as Rust's `/` on signed integers.
pub open spec fn div_toward_zero(a: int, b: int) -> int
    recommends
        b > 0,
{
    if a >= 0 {
        a / b
    } else {
        -((-a) / b)
    }
}

pub open spec fn ole_to_unix_spec(ole_us: int) -> int {
    div_toward_zero(ole_us - UNIX_EPOCH_SC_US, 1000)
}

pub open spec fn unix_to_ole_spec(unix_ms: int) -> int {
    unix_ms * 1000 + UNIX_EPOCH_SC_US
}

/// SCDateTime microseconds to Unix milliseconds (truncating toward the epoch).
pub fn ole_us_to_unix_ms(ole_us: i64) -> (ms: i64)
    requires
        ole_us >= i64::MIN + UNIX_EPOCH_SC_US,
    ensures
        ms as int == ole_to_unix_spec(ole_us as int),
{
    (ole_us - UNIX_EPOCH_SC_US) / 1000
}

/// Unix milliseconds to SCDateTime microseconds.
pub fn unix_ms_to_ole_us(unix_ms: i64) -> (us: i64)
    requires
        in_ole_range(unix_ms as int),
    ensures
        us as int == unix_to_ole_spec(unix_ms as int),
{
    unix_ms * 1000 + UNIX_EPOCH_SC_US
}

/// Converting a Unix millisecond time to SCDateTime and back gives it back.
pub proof fn lemma_unix_ole_roundtrip(t: int)
    ensures
        ole_to_unix_spec(unix_to_ole_spec(t)) == t,
{
    assert(unix_to_ole_spec(t) - UNIX_EPOCH_SC_US == t * 1000);
    if t >= 0 {
        assert((t * 1000) / 1000 == t) by (nonlinear_arith);
    } else {
        assert((-(t * 1000)) / 1000 == -t) by (nonlinear_arith)
            requires
                t < 0,
        ;
    }
}

/// Converting SCDateTime to Unix milliseconds and back loses only the
/// sub-millisecond part, and returns the same instant when there is none.
pub proof fn lemma_ole_unix_roundtrip(o: int)
    ensures
        (o - UNIX_EPOCH_SC_US) % 1000 == 0 ==> unix_to_ole_spec(ole_to_unix_spec(o)) == o,
{
    let d = o - UNIX_EPOCH_SC_US;
    if d % 1000 == 0 {
        if d >= 0 {
            assert((d / 1000) * 1000 == d) by (nonlinear_arith)
                requires
                    d % 1000 == 0,
            ;
        } else {
            assert((-d) % 1000 == 0) by (nonlinear_arith)
                requires
                    d % 1000 == 0,
            ;
            assert(((-d) / 1000) * 1000 == -d) by (nonlinear_arith)
                requires
                    (-d) % 1000 == 0,
            ;
        }
    }
}

// ------------------------------------------------------------ scan plan

/// The SCDateTime bounds of a scan: the trade runs from `start_ole` to
/// `end_ole`, and records up to `post_ole` count as after the exit.
#[derive(Clone, Copy)]
pub struct ScanWindow {
    pub start_ole: i64,
    pub end_ole: i64,
    pub post_ole: i64,
}

/// `ms * 1000 + UNIX_EPOCH_SC_US` can be computed in `i64`.
pub open spec fn in_ole_range(ms: int) -> bool {
    i64::MIN <= ms * 1000 && unix_to_ole_spec(ms) <= i64::MAX
}

pub open spec fn saturating_add_spec(a: int, b: int) -> int {
    if a + b > i64::MAX {
        i64::MAX as int
    } else if a + b < i64::MIN {
        i64::MIN as int
    } else {
        a + b
    }
}

pub open spec fn post_end_ms(end_ms: int, post_ms: int) -> int {
    saturating_add_spec(end_ms, if post_ms > 0 { post_ms } else { 0 })
}

/// Window of a scan over `[start_ms, end_ms]` (Unix) with `post_ms` more after the exit.
pub fn scan_window(start_ms: i64, end_ms: i64, post_ms: i64) -> (w: ScanWindow)
    requires
        in_ole_range(start_ms as int),
        in_ole_range(end_ms as int),
        in_ole_range(post_end_ms(end_ms as int, post_ms as int)),
    ensures
        w.start_ole as int == unix_to_ole_spec(start_ms as int),
        w.end_ole as int == unix_to_ole_spec(
            if end_ms >= start_ms {
                end_ms as int
            } else {
                start_ms as int
            },
        ),
        w.post_ole as int == unix_to_ole_spec(post_end_ms(end_ms as int, post_ms as int)),
{
    let start_ole = unix_ms_to_ole_us(start_ms);
    let end_ole = unix_ms_to_ole_us(
        if end_ms >= start_ms {
            end_ms
        } else {
            start_ms
        },
    );
    let extra = if post_ms > 0 {
        post_ms
    } else {
        0
    };
    let post_end = if end_ms > i64::MAX - extra {
        i64::MAX
    } else {
        end_ms + extra
    };
    let post_ole = unix_ms_to_ole_us(post_end);
    ScanWindow { start_ole, end_ole, post_ole }
}

/// A binary search for the first record at or after the window start:
/// the answer lies in `lo..=hi`.
#[derive(Clone, Copy)]
pub struct Bisect {
    pub lo: u64,
    pub hi: u64,
}

/// The search over `n` records.
pub fn bisect_start(n: u64) -> (b: Bisect)
    requires
        n > 0,
    ensures
        b.lo == 0,
        b.hi == n - 1,
{
    Bisect { lo: 0, hi: n - 1 }
}

/// The record to read next, or `None` when the search is done (`lo == hi`).
pub fn bisect_probe(b: &Bisect) -> (m: Option<u64>)
    ensures
        b.lo < b.hi ==> m == Some(((b.lo + b.hi) / 2) as u64),
        b.lo >= b.hi ==> m is None,
{
    if b.lo < b.hi {
        Some(b.lo + (b.hi - b.lo) / 2)
    } else {
        None
    }
}

/// Narrows the search with the datetime read at the probed record.
pub fn bisect_step(b: Bisect, mid_dt: i64, start_ole: i64) -> (r: Bisect)
    requires
        b.lo < b.hi,
    ensures
        mid_dt < start_ole ==> r == (Bisect { lo: ((b.lo + b.hi) / 2 + 1) as u64, hi: b.hi }),
        mid_dt >= start_ole ==> r == (Bisect { lo: b.lo, hi: ((b.lo + b.hi) / 2) as u64 }),
{
    let mid = b.lo + (b.hi - b.lo) / 2;
    if mid_dt < start_ole {
        Bisect { lo: mid + 1, hi: b.hi }
    } else {
        Bisect { lo: b.lo, hi: mid }
    }
}

pub open spec fn sorted_times(dts: Seq<i64>) -> bool {
    forall|i: int, j: int| 0 <= i <= j < dts.len() ==> dts[i] <= dts[j]
}

/// What the search state says of sorted record times: every record before
/// `lo` is earlier than the start, and `hi` is the last record or one at or
/// after the start.
pub open spec fn bisect_inv(dts: Seq<i64>, start: i64, b: Bisect) -> bool {
    &&& b.lo <= b.hi < dts.len()
    &&& forall|i: int| 0 <= i < b.lo ==> dts[i] < start
    &&& (b.hi == dts.len() - 1 || dts[b.hi as int] >= start)
}

/// The search starts in its invariant.
pub proof fn lemma_bisect_start(dts: Seq<i64>, start: i64)
    requires
        dts.len() > 0,
        dts.len() <= u64::MAX,
    ensures
        bisect_inv(dts, start, Bisect { lo: 0, hi: (dts.len() - 1) as u64 }),
{
}

/// Each step keeps the invariant on sorted record times and shrinks the range.
pub proof fn lemma_bisect_step(dts: Seq<i64>, start: i64, b: Bisect, r: Bisect)
    requires
        sorted_times(dts),
        bisect_inv(dts, start, b),
        b.lo < b.hi,
        dts[(b.lo + b.hi) / 2] < start ==> r == (Bisect {
            lo: ((b.lo + b.hi) / 2 + 1) as u64,
            hi: b.hi,
        }),
        dts[(b.lo + b.hi) / 2] >= start ==> r == (Bisect { lo: b.lo, hi: ((b.lo + b.hi) / 2) as u64 }),
    ensures
        bisect_inv(dts, start, r),
        r.hi - r.lo < b.hi - b.lo,
{
    let mid = (b.lo + b.hi) / 2;
    if dts[mid] < start {
        assert forall|i: int| 0 <= i < r.lo implies dts[i] < start by {
            if i >= b.lo {
                assert(dts[i] <= dts[mid]);
            }
        }
    }
}

/// When the search is done, `lo` is the first record at or after the start,
/// or the last record when every record is earlier.
pub proof fn lemma_bisect_done(dts: Seq<i64>, start: i64, b: Bisect)
    requires
        bisect_inv(dts, start, b),
        b.lo == b.hi,
    ensures
        forall|i: int| 0 <= i < b.lo ==> dts[i] < start,
        dts[b.lo as int] >= start || b.lo == dts.len() - 1,
{
}

/// Where a record stands relative to the scan window.
#[derive(Debug, Clone, Copy, PartialEq, Eq, Structural)]
pub enum RecordPhase {
    /// At or before the exit: counts toward MFE/MAE and the curve.
    InTrade,
    /// After the exit, within the post window: counts toward leftover MFE.
    AfterExit,
    /// After the post window: the scan stops.
    Past,
}

pub fn record_phase(dt: i64, w: &ScanWindow) -> (p: RecordPhase)
    ensures
        dt > w.post_ole ==> p == RecordPhase::Past,
        dt <= w.post_ole && dt <= w.end_ole ==> p == RecordPhase::InTrade,
        dt <= w.post_ole && dt > w.end_ole ==> p == RecordPhase::AfterExit,
{
    if dt > w.post_ole {
        RecordPhase::Past
    } else if dt <= w.end_ole {
        RecordPhase::InTrade
    } else {
        RecordPhase::AfterExit
    }
}

/// The PnL curve keeps its first 400 points, then every record whose index is a multiple of 8.
pub fn keep_curve_point(curve_len: usize, index: u64) -> (b: bool)
    ensures
        b == (curve_len < 400 || index % 8 == 0),
{
    curve_len < 400 || index % 8 == 0
}

// ------------------------------------------------------------ finding files

/// `Path::file_stem` and `Path::extension` of a file name: split at the last
/// `.` unless the only `.` leads the name (or the name is `..`).
pub open spec fn last_dot(name: Seq<char>) -> int
    decreases name.len(),
{
    if name.len() == 0 {
        -1
    } else if name.last() == '.' {
        name.len() - 1
    } else {
        last_dot(name.drop_last())
    }
}

pub open spec fn stem_of(name: Seq<char>) -> Seq<char> {
    let d = last_dot(name);
    if name == ".."@ || d <= 0 {
        name
    } else {
        name.subrange(0, d)
    }
}

pub open spec fn extension_of(name: Seq<char>) -> Option<Seq<char>> {
    let d = last_dot(name);
    if name == ".."@ || d <= 0 {
        None
    } else {
        Some(name.subrange(d + 1, name.len() as int))
    }
}

/// A `.scid` file (extension compared ignoring ASCII case) whose upper-cased
/// stem equals the wanted code, or one of the two prefixes the other.
pub open spec fn scid_candidate(name: Seq<char>, want: Seq<char>) -> bool {
    let stem = upper_seq(stem_of(name));
    &&& extension_of(name) matches Some(e) && lower_seq(e) == "scid"@
    &&& (stem == want || is_prefix(want, stem) || is_prefix(stem, want))
}

pub open spec fn scid_exact(name: Seq<char>, want: Seq<char>) -> bool {
    scid_candidate(name, want) && upper_seq(stem_of(name)) == want
}

proof fn lemma_last_dot_bounds(name: Seq<char>)
    ensures
        -1 <= last_dot(name) < name.len(),
        last_dot(name) >= 0 ==> name[last_dot(name)] == '.',
        forall|k: int| last_dot(name) < k < name.len() ==> name[k] != '.',
    decreases name.len(),
{
    if name.len() > 0 && name.last() != '.' {
        lemma_last_dot_bounds(name.drop_last());
        assert forall|k: int| last_dot(name) < k < name.len() implies name[k] != '.' by {
            if k < name.len() - 1 {
                assert(name[k] == name.drop_last()[k]);
            }
        }
    }
}

/// The stem and extension of a file name, as `Path` splits them.
pub fn split_file_name(name: &Vec<char>) -> (r: (Vec<char>, Option<Vec<char>>))
    ensures
        r.0@ == stem_of(name@),
        match r.1 {
            Some(e) => extension_of(name@) == Some(e@),
            None => extension_of(name@) is None,
        },
{
    proof {
        lemma_last_dot_bounds(name@);
        reveal_strlit("..");
    }
    let n = name.len();
    let mut d: usize = n;
    let mut found = false;
    while d > 0 && !found
        invariant
            d <= n,
            n == name@.len(),
            found ==> d < n && name@[d as int] == '.',
            found ==> last_dot(name@) == d,
            !found ==> forall|k: int| d <= k < n ==> name@[k] != '.',
        decreases d + (if found { 0int } else { 1int }),
    {
        if name[d - 1] == '.' {
            d = d - 1;
            found = true;
            proof {
                lemma_last_dot_tail(name@, d as int);
            }
        } else {
            d = d - 1;
        }
    }
    proof {
        if !found {
            lemma_no_dot(name@);
        }
    }
    let dotdot = eq_chars(name, &chars_of(".."));
    if dotdot || !found || d == 0 {
        return (name.clone(), None);
    }
    let mut stem: Vec<char> = Vec::new();
    let mut i: usize = 0;
    while i < d
        invariant
            i <= d < n,
            n == name@.len(),
            stem@ == name@.subrange(0, i as int),
        decreases d - i,
    {
        stem.push(name[i]);
        assert(name@.subrange(0, i + 1) == name@.subrange(0, i as int).push(name@[i as int]));
        i = i + 1;
    }
    let mut ext: Vec<char> = Vec::new();
    let mut j: usize = d + 1;
    while j < n
        invariant
            d + 1 <= j <= n,
            n == name@.len(),
            ext@ == name@.subrange(d + 1, j as int),
        decreases n - j,
    {
        ext.push(name[j]);
        assert(name@.subrange(d + 1, j + 1) == name@.subrange(d + 1, j as int).push(name@[j as int]));
        j = j + 1;
    }
    (stem, Some(ext))
}

proof fn lemma_last_dot_tail(name: Seq<char>, d: int)
    requires
        0 <= d < name.len(),
        name[d] == '.',
        forall|k: int| d < k < name.len() ==> name[k] != '.',
    ensures
        last_dot(name) == d,
    decreases name.len(),
{
    if d < name.len() - 1 {
        assert forall|k: int| d < k < name.drop_last().len() implies name.drop_last()[k] != '.' by {
            assert(name.drop_last()[k] == name[k]);
        }
        lemma_last_dot_tail(name.drop_last(), d);
    }
}

proof fn lemma_no_dot(name: Seq<char>)
    requires
        forall|k: int| 0 <= k < name.len() ==> name[k] != '.',
    ensures
        last_dot(name) == -1,
    decreases name.len(),
{
    if name.len() > 0 {
        assert forall|k: int| 0 <= k < name.drop_last().len() implies name.drop_last()[k] != '.' by {
            assert(name.drop_last()[k] == name[k]);
        }
        lemma_no_dot(name.drop_last());
    }
}

/// Whether `name` is a `.scid` file for the wanted (upper-cased) code, and whether it is an exact match.
fn scid_match(name: &Vec<char>, want: &Vec<char>) -> (r: (bool, bool))
    ensures
        r.0 == scid_candidate(name@, want@),
        r.1 == scid_exact(name@, want@),
{
    let (stem, ext) = split_file_name(name);
    let is_scid = match &ext {
        Some(e) => {
            proof {
                reveal_strlit("scid");
            }
            eq_chars(&lower_ascii(e), &chars_of("scid"))
        },
        None => false,
    };
    if !is_scid {
        return (false, false);
    }
    let up = upper_ascii(&stem);
    let same = eq_chars(&up, want);
    let cand = same || starts_with_chars(&up, want) || starts_with_chars(want, &up);
    (cand, cand && same)
}

/// A name with extension `scid` (any ASCII case).
pub open spec fn is_scid_name(name: Seq<char>) -> bool {
    extension_of(name) matches Some(e) && lower_seq(e) == "scid"@
}

/// A `.scid` file is a candidate for a symbol exactly when its upper-cased
/// stem equals the upper-cased symbol, starts with it, or is a prefix of it.
pub proof fn lemma_scid_candidate_stems(name: Seq<char>, want: Seq<char>)
    ensures
        is_scid_name(name) && upper_seq(stem_of(name)) == want ==> scid_candidate(name, want),
        is_scid_name(name) && is_prefix(want, upper_seq(stem_of(name))) ==> scid_candidate(name, want),
        is_scid_name(name) && is_prefix(upper_seq(stem_of(name)), want) ==> scid_candidate(name, want),
        scid_candidate(name, want) ==> is_scid_name(name) && (upper_seq(stem_of(name)) == want
            || is_prefix(want, upper_seq(stem_of(name))) || is_prefix(upper_seq(stem_of(name)), want)),
        scid_exact(name, want) <==> is_scid_name(name) && upper_seq(stem_of(name)) == want,
{
}

/// Among directory entry names (in the order the directory lists them), the
/// `.scid` file for `symbol`: the first exact stem match, else the last stem
/// that prefixes the symbol or that the symbol prefixes.
pub fn find_scid_in(names: &Vec<String>, symbol: &str) -> (r: Option<usize>)
    ensures
        (exists|j: int|
            0 <= j < names@.len() && is_scid_name(#[trigger] names@[j]@) && (upper_seq(
                stem_of(names@[j]@),
            ) == upper_seq(symbol@) || is_prefix(upper_seq(symbol@), upper_seq(stem_of(names@[j]@)))
                || is_prefix(upper_seq(stem_of(names@[j]@)), upper_seq(symbol@)))) ==> r is Some,
        r matches Some(k) ==> is_scid_name(names@[k as int]@),
        match r {
            None => forall|j: int|
                0 <= j < names@.len() ==> !scid_candidate(
                    #[trigger] names@[j]@,
                    upper_seq(symbol@),
                ),
            Some(k) => {
                &&& k < names@.len()
                &&& scid_candidate(names@[k as int]@, upper_seq(symbol@))
                &&& forall|j: int|
                    0 <= j < k ==> !scid_exact(#[trigger] names@[j]@, upper_seq(symbol@))
                &&& (scid_exact(names@[k as int]@, upper_seq(symbol@)) || forall|j: int|
                    k < j < names@.len() ==> !scid_candidate(
                        #[trigger] names@[j]@,
                        upper_seq(symbol@),
                    ))
            },
        },
{
    proof {
        assert forall|j: int| 0 <= j < names@.len() implies #[trigger] is_scid_name(names@[j]@) ==> (
        scid_candidate(names@[j]@, upper_seq(symbol@)) <==> (upper_seq(stem_of(names@[j]@))
            == upper_seq(symbol@) || is_prefix(upper_seq(symbol@), upper_seq(stem_of(names@[j]@)))
            || is_prefix(upper_seq(stem_of(names@[j]@)), upper_seq(symbol@)))) by {
            lemma_scid_candidate_stems(names@[j]@, upper_seq(symbol@));
        }
    }
    let want = upper_ascii(&chars_of(symbol));
    let mut best: Option<usize> = None;
    let mut i: usize = 0;
    while i < names.len()
        invariant
            i <= names@.len(),
            want@ == upper_seq(symbol@),
            forall|j: int| 0 <= j < i ==> !scid_exact(#[trigger] names@[j]@, want@),
            match best {
                None => forall|j: int| 0 <= j < i ==> !scid_candidate(#[trigger] names@[j]@, want@),
                Some(k) => {
                    &&& k < i
                    &&& scid_candidate(names@[k as int]@, want@)
                    &&& forall|j: int| k < j < i ==> !scid_candidate(#[trigger] names@[j]@, want@)
                },
            },
        decreases names@.len() - i,
    {
        let (cand, exact) = scid_match(&chars_of(names[i].as_str()), &want);
        if cand {
            best = Some(i);
            if exact {
                return best;
            }
        }
        i = i + 1;
    }
    best
}

} // verus!
