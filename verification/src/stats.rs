//! The integer side of the journal statistics: the distinct trading days in
//! date order, and the random stream that resamples trades for the Monte
//! Carlo runs.

use vstd::prelude::*;
use crate::engine::{insert_sorted, strictly_sorted, text_views};

verus! {

/// The distinct texts of `items`, in `str` order.
pub fn sorted_distinct(items: &Vec<String>) -> (v: Vec<String>)
    ensures
        strictly_sorted(text_views(v@)),
        forall|x: Seq<char>| text_views(v@).contains(x) <==> text_views(items@).contains(x),
{
    let mut out: Vec<String> = Vec::new();
    let ghost all = text_views(items@);
    for i in 0..items.len()
        invariant
            all == text_views(items@),
            strictly_sorted(text_views(out@)),
            forall|x: Seq<char>| text_views(out@).contains(x) <==> all.take(i as int).contains(x),
    {
        let ghost before = text_views(out@);
        assert(forall|x: Seq<char>| before.contains(x) <==> all.take(i as int).contains(x));
        let s = items[i].as_str().to_string();
        let ghost sv = s@;
        assert(sv == all[i as int]);
        insert_sorted(&mut out, s);
        proof {
            let t0 = all.take(i as int);
            let t1 = all.take(i + 1);
            assert(t1 =~= t0.push(sv));
            assert forall|x: Seq<char>| text_views(out@).contains(x) <==> t1.contains(x) by {
                assert(before.contains(x) <==> t0.contains(x));
                if x == sv {
                    assert(t1[i as int] == x);
                }
                if t0.contains(x) {
                    let w = choose|w: int| 0 <= w < t0.len() && t0[w] == x;
                    assert(t1[w] == x);
                }
                if t1.contains(x) {
                    let w = choose|w: int| 0 <= w < t1.len() && t1[w] == x;
                    if w < i {
                        assert(t0[w] == x);
                    } else {
                        assert(x == sv);
                    }
                }
            }
        }
    }
    assert(all.take(all.len() as int) =~= all);
    out
}

/// The seed of the resampling stream for `n` trades.
pub fn sample_seed(n: usize) -> (s: u64)
    ensures
        s == (0xC0FFEEu64 ^ (n as u64)),
{
    0xC0FFEEu64 ^ (n as u64)
}

/// One step of the linear congruential stream (arithmetic mod 2^64).
pub open spec fn lcg_spec(state: u64) -> u64 {
    ((state as int * 6364136223846793005int + 1) % 0x1_0000_0000_0000_0000int) as u64
}

pub fn lcg_next(state: u64) -> (r: u64)
    ensures
        r == lcg_spec(state),
{
    let m = state.wrapping_mul(6364136223846793005u64);
    let r = m.wrapping_add(1);
    assert(m as int == (state as int * 6364136223846793005int) % 0x1_0000_0000_0000_0000int);
    assert(r as int == (m as int + 1) % 0x1_0000_0000_0000_0000int);
    assert(((state as int * 6364136223846793005int) % 0x1_0000_0000_0000_0000int + 1)
        % 0x1_0000_0000_0000_0000int == (state as int * 6364136223846793005int + 1)
        % 0x1_0000_0000_0000_0000int) by (nonlinear_arith);
    r
}

/// The trade a stream state picks out of `n`: the top 31 bits, modulo `n`.
pub fn sample_index(state: u64, n: usize) -> (i: usize)
    requires
        n > 0,
    ensures
        i as int == (state as int / 0x2_0000_0000int) % (n as int),
        i < n,
{
    let top = state >> 33;
    assert(top as int == state as int / 0x2_0000_0000int) by (bit_vector)
        requires
            top == state >> 33,
    ;
    assert(top < 0x8000_0000u64) by (bit_vector)
        requires
            top == state >> 33,
    ;
    let t = top as usize;
    t % n
}

} // verus!
