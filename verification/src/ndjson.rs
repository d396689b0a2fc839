//! Line framing of the NDJSON journal files (one JSON object per line):
//! which lines hold a record, their 1-based numbers, and the text of an
//! error on a line. Decoding each record is left to the JSON reader.

use vstd::prelude::*;
use crate::text::{chars_of, decimal_nat, decimal_u64, push_all, text_from_chars, trim_chars, trim_seq};
use crate::tradeslist::{lines_spec, text_lines};

verus! {

/// The trimmed non-blank lines, each with its 1-based line number.
pub open spec fn numbered_spec(ls: Seq<Seq<char>>) -> Seq<(nat, Seq<char>)>
    decreases ls.len(),
{
    if ls.len() == 0 {
        Seq::empty()
    } else {
        let r = numbered_spec(ls.drop_last());
        let t = trim_seq(ls.last());
        if t.len() == 0 {
            r
        } else {
            r.push((ls.len(), t))
        }
    }
}

pub open spec fn numbered_views(v: Seq<(usize, String)>) -> Seq<(nat, Seq<char>)> {
    Seq::new(v.len(), |i: int| (v[i].0 as nat, v[i].1@))
}

/// The record lines of a journal file, trimmed, with their line numbers.
pub fn numbered_lines(text: &str) -> (r: Vec<(usize, String)>)
    ensures
        numbered_views(r@) == numbered_spec(lines_spec(text@)),
{
    let ls = text_lines(text);
    let ghost lv = Seq::new(ls@.len(), |i: int| ls@[i]@);
    assert(lv == lines_spec(text@));
    let mut out: Vec<(usize, String)> = Vec::new();
    assert(lv.take(0) =~= Seq::<Seq<char>>::empty());
    assert(numbered_views(out@) =~= Seq::<(nat, Seq<char>)>::empty());
    for i in 0..ls.len()
        invariant
            lv == Seq::new(ls@.len(), |j: int| ls@[j]@),
            numbered_views(out@) == numbered_spec(lv.take(i as int)),
    {
        assert(lv.take(i + 1).drop_last() =~= lv.take(i as int));
        assert(lv.take(i + 1).last() == ls@[i as int]@);
        let t = trim_chars(&ls[i]);
        if t.len() > 0 {
            let ghost before = numbered_views(out@);
            let s = text_from_chars(&t);
            out.push((i + 1, s));
            assert(numbered_views(out@) =~= before.push(((i + 1) as nat, t@)));
        }
    }
    assert(lv.take(lv.len() as int) =~= lv);
    out
}

/// `{prefix}{number}: {detail}`, the text of an error on a numbered line.
pub fn line_error(prefix: &str, number: usize, detail: &str) -> (s: String)
    ensures
        s@ == prefix@ + decimal_nat(number as nat) + ": "@ + detail@,
{
    let mut v = chars_of(prefix);
    push_all(&mut v, &decimal_u64(number as u64));
    push_all(&mut v, &chars_of(": "));
    push_all(&mut v, &chars_of(detail));
    text_from_chars(&v)
}

} // verus!
