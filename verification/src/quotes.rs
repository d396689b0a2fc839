//! Quote-feed rules: URL encoding of symbols, staleness, cache ages, and the
//! errors of the feeds.

use vstd::prelude::*;
use vstd::string::StringSliceAdditionalSpecFns;
use crate::text::text_from_chars;

verus! {

pub const STALE_AFTER_SECS: i64 = 180;

pub const SPOT_CACHE_SECS: i64 = 60;

pub const HISTORY_CACHE_SECS: i64 = 8 * 3600;

/// Errors of the quote and calendar feeds.
#[derive(Debug)]
pub enum QuoteError {
    Network(String),
    Parse(String),
}

pub open spec fn unreserved(b: u8) -> bool {
    (0x41 <= b <= 0x5a) || (0x61 <= b <= 0x7a) || (0x30 <= b <= 0x39) || b == 0x2d || b == 0x2e
        || b == 0x5f
}

/// Upper-case hexadecimal digit of a nibble.
pub open spec fn hex_digit(n: u8) -> char {
    if n < 10 {
        ((n + 48) as u32) as char
    } else {
        ((n + 55) as u32) as char
    }
}

/// One byte of the URL form: unreserved ASCII as is, anything else as `%XX`.
pub open spec fn encode_byte(b: u8) -> Seq<char> {
    if unreserved(b) {
        seq![(b as u32) as char]
    } else {
        seq!['%', hex_digit(b / 16), hex_digit(b % 16)]
    }
}

pub open spec fn url_encode_bytes(s: Seq<u8>) -> Seq<char>
    decreases s.len(),
{
    if s.len() == 0 {
        Seq::empty()
    } else {
        url_encode_bytes(s.drop_last()) + encode_byte(s.last())
    }
}

fn hex_char(n: u8) -> (c: char)
    requires
        n < 16,
    ensures
        c == hex_digit(n),
{
    if n < 10 {
        (n + 48) as char
    } else {
        (n + 55) as char
    }
}

/// Percent-encodes the UTF-8 bytes of `s`, keeping `A-Z a-z 0-9 - . _`.
pub fn urlencoding_lite(s: &str) -> (r: String)
    ensures
        r@ == url_encode_bytes(s.spec_bytes()),
{
    let b = s.as_bytes();
    let mut out: Vec<char> = Vec::new();
    for i in 0..b.len()
        invariant
            b@ == s.spec_bytes(),
            out@ == url_encode_bytes(b@.take(i as int)),
    {
        let x = b[i];
        proof {
            assert(b@.take(i + 1).drop_last() =~= b@.take(i as int));
        }
        let ghost before = out@;
        if (0x41 <= x && x <= 0x5a) || (0x61 <= x && x <= 0x7a) || (0x30 <= x && x <= 0x39) || x
            == 0x2d || x == 0x2e || x == 0x5f {
            out.push(x as char);
            assert(out@ =~= before + encode_byte(x));
        } else {
            out.push('%');
            out.push(hex_char(x / 16));
            out.push(hex_char(x % 16));
            assert(out@ =~= before + encode_byte(x));
        }
    }
    assert(b@.take(b@.len() as int) =~= b@);
    text_from_chars(&out)
}

/// `now - then` saturating at the bounds of `i64`.
pub open spec fn saturating_sub_spec(a: int, b: int) -> int {
    if a - b > i64::MAX {
        i64::MAX as int
    } else if a - b < i64::MIN {
        i64::MIN as int
    } else {
        a - b
    }
}

pub fn saturating_sub_i64(a: i64, b: i64) -> (r: i64)
    ensures
        r as int == saturating_sub_spec(a as int, b as int),
{
    if b < 0 && a > i64::MAX + b {
        i64::MAX
    } else if b > 0 && a < i64::MIN + b {
        i64::MIN
    } else {
        a - b
    }
}

/// The age test of a tape: it is over `STALE_AFTER_SECS` exactly when the
/// tape was fetched more than that many seconds before `now` (a fetch time
/// after `now` is fresh), with no wrap-around at the bounds of `i64`.
pub proof fn lemma_stale_rules(fetched_at_unix: i64, now_unix: i64)
    ensures
        now_unix - fetched_at_unix > STALE_AFTER_SECS ==> saturating_sub_spec(
            now_unix as int,
            fetched_at_unix as int,
        ) > STALE_AFTER_SECS,
        now_unix - fetched_at_unix <= STALE_AFTER_SECS ==> !(saturating_sub_spec(
            now_unix as int,
            fetched_at_unix as int,
        ) > STALE_AFTER_SECS),
{
}

/// A tape is stale when it holds no quotes or was fetched more than 180 s ago.
pub fn quotes_stale(quote_count: usize, fetched_at_unix: i64, now_unix: i64) -> (b: bool)
    ensures
        b == (quote_count == 0 || saturating_sub_spec(now_unix as int, fetched_at_unix as int)
            > STALE_AFTER_SECS),
        quote_count == 0 ==> b,
        quote_count > 0 ==> (b <==> now_unix - fetched_at_unix > STALE_AFTER_SECS),
{
    proof {
        lemma_stale_rules(fetched_at_unix, now_unix);
    }
    if quote_count == 0 {
        return true;
    }
    saturating_sub_i64(now_unix, fetched_at_unix) > STALE_AFTER_SECS
}

} // verus!
