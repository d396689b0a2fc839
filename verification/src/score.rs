//! Pulse score vocabulary: trading mode, decision, size, bias, arrows and
//! the metric rows a pillar shows.

use vstd::prelude::*;
use crate::text::{chars_of, eq_chars, lower_ascii, lower_char, lower_seq, upper_char, upper_seq};

verus! {

/// Day or swing weighting of the pillars.
#[derive(Debug, Clone, Copy, PartialEq, Eq, Structural)]
pub enum Mode {
    Day,
    Swing,
}

/// The name a mode is stored and shown under.
pub open spec fn mode_name(m: Mode) -> Seq<char> {
    match m {
        Mode::Day => "day"@,
        Mode::Swing => "swing"@,
    }
}

/// The mode a setting names: `swing` or `s` in any ASCII case, else day.
pub open spec fn mode_of(s: Seq<char>) -> Mode {
    let l = lower_seq(s);
    if l == "swing"@ || l == "s"@ {
        Mode::Swing
    } else {
        Mode::Day
    }
}

impl Mode {
    pub fn as_str(self) -> (s: &'static str)
        ensures
            s@ == mode_name(self),
    {
        match self {
            Mode::Day => "day",
            Mode::Swing => "swing",
        }
    }

    pub fn parse(s: &str) -> (m: Mode)
        ensures
            m == mode_of(s@),
    {
        let l = lower_ascii(&chars_of(s));
        if eq_chars(&l, &chars_of("swing")) || eq_chars(&l, &chars_of("s")) {
            Mode::Swing
        } else {
            Mode::Day
        }
    }
}

/// Reading back the name of a mode gives the mode.
pub proof fn lemma_mode_name_parses(m: Mode)
    ensures
        mode_of(mode_name(m)) == m,
{
    reveal_strlit("day");
    reveal_strlit("swing");
    reveal_strlit("s");
    assert(lower_seq("day"@) =~= "day"@);
    assert(lower_seq("swing"@) =~= "swing"@);
}

proof fn lemma_lower_of_upper(s: Seq<char>)
    ensures
        lower_seq(upper_seq(s)) == lower_seq(s),
{
    assert forall|i: int| 0 <= i < s.len() implies lower_char(upper_char(s[i])) == lower_char(s[i]) by {
        let c = s[i];
        if 'a' <= c && c <= 'z' {
            assert(upper_char(c) as u32 == c as u32 - 32);
        }
    }
    assert(lower_seq(upper_seq(s)) =~= lower_seq(s));
}

/// A mode setting is read without regard to ASCII case.
pub proof fn lemma_mode_of_ignores_case(s: Seq<char>)
    ensures
        mode_of(upper_seq(s)) == mode_of(s),
        mode_of(lower_seq(s)) == mode_of(s),
{
    lemma_lower_of_upper(s);
    assert forall|i: int| 0 <= i < s.len() implies lower_char(lower_char(s[i])) == lower_char(s[i]) by {}
    assert(lower_seq(lower_seq(s)) =~= lower_seq(s));
}

/// Whether to trade now.
#[derive(Debug, Clone, Copy, PartialEq, Eq, Structural)]
pub enum Decision {
    Yes,
    Caution,
    No,
}

/// Recommended position size.
#[derive(Debug, Clone, Copy, PartialEq, Eq, Structural)]
pub enum SizeRec {
    Full,
    ThreeQuarter,
    Half,
    Quarter,
    Flat,
}

/// Directional bias, separate from the quality score.
#[derive(Debug, Clone, Copy, PartialEq, Eq, Structural)]
pub enum BiasLabel {
    Long,
    Short,
    Neutral,
}

/// Last close against a moving average.
#[derive(Debug, Clone, Copy, PartialEq, Eq, Structural)]
pub enum Arrow {
    Up,
    Down,
    Flat,
}

/// Where the composite stands against the decision thresholds 50, 60, 70 and 80.
#[derive(Debug, Clone, Copy, PartialEq, Eq, Structural)]
pub enum ScoreBand {
    Under50,
    From50,
    From60,
    From70,
    From80,
}

pub open spec fn decision_spec(band: ScoreBand, bias: BiasLabel) -> Decision {
    if band == ScoreBand::From80 && bias != BiasLabel::Neutral {
        Decision::Yes
    } else if band == ScoreBand::From80 || band == ScoreBand::From70 || band == ScoreBand::From60 {
        Decision::Caution
    } else {
        Decision::No
    }
}

pub open spec fn size_spec(band: ScoreBand) -> SizeRec {
    match band {
        ScoreBand::From80 => SizeRec::Full,
        ScoreBand::From70 => SizeRec::ThreeQuarter,
        ScoreBand::From60 => SizeRec::Half,
        ScoreBand::From50 => SizeRec::Quarter,
        ScoreBand::Under50 => SizeRec::Flat,
    }
}

/// YES at 80 and up with a side; CAUTION from 60; NO below.
pub fn decision_for(band: ScoreBand, bias: BiasLabel) -> (d: Decision)
    ensures
        d == decision_spec(band, bias),
{
    match band {
        ScoreBand::From80 => match bias {
            BiasLabel::Neutral => Decision::Caution,
            _ => Decision::Yes,
        },
        ScoreBand::From70 | ScoreBand::From60 => Decision::Caution,
        _ => Decision::No,
    }
}

/// FULL at 80 and up, 3/4 from 70, HALF from 60, QUARTER from 50, else FLAT.
pub fn size_for(band: ScoreBand) -> (s: SizeRec)
    ensures
        s == size_spec(band),
{
    match band {
        ScoreBand::From80 => SizeRec::Full,
        ScoreBand::From70 => SizeRec::ThreeQuarter,
        ScoreBand::From60 => SizeRec::Half,
        ScoreBand::From50 => SizeRec::Quarter,
        ScoreBand::Under50 => SizeRec::Flat,
    }
}

/// Sizes step down with the score band: FULL from 80, 3/4 from 70, HALF from
/// 60, QUARTER from 50, FLAT below; from 60 to 79 the call is CAUTION
/// whatever the bias.
pub proof fn lemma_band_sizes(band: ScoreBand, bias: BiasLabel)
    ensures
        band == ScoreBand::From80 ==> size_spec(band) == SizeRec::Full,
        band == ScoreBand::From70 ==> size_spec(band) == SizeRec::ThreeQuarter,
        band == ScoreBand::From60 ==> size_spec(band) == SizeRec::Half,
        band == ScoreBand::From50 ==> size_spec(band) == SizeRec::Quarter,
        band == ScoreBand::Under50 ==> size_spec(band) == SizeRec::Flat,
        band == ScoreBand::From70 || band == ScoreBand::From60 ==> decision_spec(band, bias)
            == Decision::Caution,
        band == ScoreBand::From80 && bias != BiasLabel::Neutral ==> decision_spec(band, bias)
            == Decision::Yes,
{
}

/// YES requires a side, and comes only with a full size; high quality with
/// a neutral bias is CAUTION.
pub proof fn lemma_yes_needs_a_side(band: ScoreBand, bias: BiasLabel)
    ensures
        decision_spec(band, bias) == Decision::Yes ==> bias != BiasLabel::Neutral && size_spec(band)
            == SizeRec::Full,
        band == ScoreBand::From80 && bias == BiasLabel::Neutral ==> decision_spec(band, bias)
            == Decision::Caution,
        decision_spec(band, bias) == Decision::No <==> (band == ScoreBand::Under50 || band
            == ScoreBand::From50),
{
}

/// The bias of `count` votes of -1, 0 or +1 summing to `sum`: the mean
/// vote times 100 above 20 is LONG, below -20 SHORT, else NEUTRAL.
pub open spec fn bias_label_spec(sum: int, count: int) -> BiasLabel {
    if count > 0 && sum * 100 > 20 * count {
        BiasLabel::Long
    } else if count > 0 && sum * 100 < -20 * count {
        BiasLabel::Short
    } else {
        BiasLabel::Neutral
    }
}

pub fn bias_label(votes: &Vec<i8>) -> (b: BiasLabel)
    requires
        forall|i: int| 0 <= i < votes@.len() ==> -1 <= #[trigger] votes@[i] <= 1,
    ensures
        b == bias_label_spec(vote_sum(votes@), votes@.len() as int),
{
    let mut sum: i128 = 0;
    for i in 0..votes.len()
        invariant
            forall|j: int| 0 <= j < votes@.len() ==> -1 <= #[trigger] votes@[j] <= 1,
            sum == vote_sum(votes@.take(i as int)),
            -(i as int) <= sum <= i as int,
    {
        assert(votes@.take(i + 1).drop_last() =~= votes@.take(i as int));
        sum = sum + votes[i] as i128;
    }
    assert(votes@.take(votes@.len() as int) =~= votes@);
    let n = votes.len() as i128;
    if n > 0 && sum * 100 > 20 * n {
        BiasLabel::Long
    } else if n > 0 && sum * 100 < -20 * n {
        BiasLabel::Short
    } else {
        BiasLabel::Neutral
    }
}

pub open spec fn vote_sum(v: Seq<i8>) -> int
    decreases v.len(),
{
    if v.len() == 0 {
        0
    } else {
        vote_sum(v.drop_last()) + v.last()
    }
}

/// Reversing every vote reverses the bias: LONG and SHORT swap and NEUTRAL
/// stays.
pub proof fn lemma_bias_mirror(sum: int, count: int)
    ensures
        bias_label_spec(sum, count) == BiasLabel::Long <==> bias_label_spec(-sum, count)
            == BiasLabel::Short,
        bias_label_spec(sum, count) == BiasLabel::Short <==> bias_label_spec(-sum, count)
            == BiasLabel::Long,
        bias_label_spec(sum, count) == BiasLabel::Neutral <==> bias_label_spec(-sum, count)
            == BiasLabel::Neutral,
{
}

/// Unanimous votes give the side they vote for; no votes give NEUTRAL.
pub proof fn lemma_unanimous_bias(n: int, vote: int)
    requires
        n > 0,
        vote == 1 || vote == -1,
    ensures
        bias_label_spec(n * vote, n) == (if vote == 1 {
            BiasLabel::Long
        } else {
            BiasLabel::Short
        }),
        bias_label_spec(0, n) == BiasLabel::Neutral,
        bias_label_spec(0, 0) == BiasLabel::Neutral,
{
    if vote == 1 {
        assert(n * vote * 100 > 20 * n) by (nonlinear_arith)
            requires
                n > 0,
                vote == 1,
        ;
    } else {
        assert(n * vote * 100 < -20 * n) by (nonlinear_arith)
            requires
                n > 0,
                vote == -1,
        ;
        assert(n * vote * 100 <= 20 * n) by (nonlinear_arith)
            requires
                n > 0,
                vote == -1,
        ;
    }
}

/// One labelled value shown under a pillar.
pub struct Metric {
    pub name: String,
    pub value: String,
    pub note: String,
}

pub fn metric(name: &str, value: String, note: &str) -> (m: Metric)
    ensures
        m.name@ == name@,
        m.value@ == value@,
        m.note@ == note@,
{
    Metric { name: name.to_string(), value, note: note.to_string() }
}

/// Points the 5-minute VWAP location adds to the execution overlay: only for
/// 5-minute data; chop wants price at VWAP, a trend wants a side.
pub open spec fn vwap_points(
    source: Option<Seq<char>>,
    vs_vwap: Option<Seq<char>>,
    trend: bool,
) -> Option<u32> {
    if source != Some("5m"@) {
        None
    } else {
        match vs_vwap {
            None => None,
            Some(v) => if v == "n/a"@ {
                None
            } else if v == "at"@ {
                Some(if trend { 48u32 } else { 72u32 })
            } else if v == "above"@ || v == "below"@ {
                Some(if trend { 80u32 } else { 42u32 })
            } else {
                Some(50u32)
            },
        }
    }
}

pub open spec fn opt_chars(o: Option<&String>) -> Option<Seq<char>> {
    match o {
        Some(s) => Some(s@),
        None => None,
    }
}

fn is_text(s: &String, lit: &str) -> (b: bool)
    ensures
        b == (s@ == lit@),
{
    eq_chars(&chars_of(s.as_str()), &chars_of(lit))
}

/// The VWAP part of the execution overlay; `trend` is ADX 14 at or above 25.
pub fn vwap_quality(source: Option<&String>, vs_vwap: Option<&String>, trend: bool) -> (q: Option<u32>)
    ensures
        q == vwap_points(opt_chars(source), opt_chars(vs_vwap), trend),
{
    match source {
        Some(s) => if !is_text(s, "5m") {
            return None;
        },
        None => return None,
    }
    let v = match vs_vwap {
        Some(v) => v,
        None => return None,
    };
    if is_text(v, "n/a") {
        None
    } else if is_text(v, "at") {
        Some(if trend { 48 } else { 72 })
    } else if is_text(v, "above") || is_text(v, "below") {
        Some(if trend { 80 } else { 42 })
    } else {
        Some(50)
    }
}

} // verus!
