use vstd::prelude::*;
use vstd::arithmetic::div_mod::{lemma_div_is_ordered, lemma_div_multiples_vanish};
use crate::fixed::UNIT;

verus! {

/// One sample of stereo peak amplitude, each channel a fraction of `UNIT`.
#[derive(Clone, Copy, Debug, PartialEq, Eq, Structural)]
pub struct PeakPair {
    pub left: u64,
    pub right: u64,
}

impl PeakPair {
    pub fn new(left: u64, right: u64) -> (r: PeakPair)
        ensures
            r.left == left,
            r.right == right,
    {
        PeakPair { left, right }
    }
}

/// The amplitude of one channel of a raw sample: the first component for
/// the left channel, the second for the right one.
pub open spec fn channel(p: (u32, u32), right: bool) -> nat {
    if right {
        p.1 as nat
    } else {
        p.0 as nat
    }
}

/// The largest amplitude of one channel over a raw sequence (zero when empty).
pub open spec fn channel_max(s: Seq<(u32, u32)>, right: bool) -> nat
    decreases s.len(),
{
    if s.len() == 0 {
        0
    } else {
        let m = channel_max(s.drop_last(), right);
        let v = channel(s.last(), right);
        if v > m {
            v
        } else {
            m
        }
    }
}

/// A raw amplitude `v` scaled so that `max` maps to `UNIT`; zero when `max` is zero.
pub open spec fn scaled(v: nat, max: nat) -> nat {
    if max == 0 {
        0
    } else {
        v * (UNIT as nat) / max
    }
}

/// The normalised form of a raw sequence: each channel divided by its own maximum.
pub open spec fn normalized(s: Seq<(u32, u32)>) -> Seq<PeakPair> {
    Seq::new(
        s.len(),
        |i: int|
            PeakPair {
                left: scaled(channel(s[i], false), channel_max(s, false)) as u64,
                right: scaled(channel(s[i], true), channel_max(s, true)) as u64,
            },
    )
}

/// Every amplitude of the channel is at most its maximum, and the maximum
/// is either zero or reached by some sample.
pub proof fn lemma_channel_max(s: Seq<(u32, u32)>, right: bool)
    ensures
        forall|i: int| 0 <= i < s.len() ==> channel(#[trigger] s[i], right) <= channel_max(s, right),
        channel_max(s, right) == 0 || exists|i: int|
            0 <= i < s.len() && channel(#[trigger] s[i], right) == channel_max(s, right),
        channel_max(s, right) <= u32::MAX,
    decreases s.len(),
{
    if s.len() > 0 {
        let t = s.drop_last();
        lemma_channel_max(t, right);
        assert forall|i: int| 0 <= i < s.len() implies channel(#[trigger] s[i], right)
            <= channel_max(s, right) by {
            if i < t.len() {
                assert(s[i] == t[i]);
            }
        }
        if channel(s.last(), right) <= channel_max(t, right) && channel_max(t, right) != 0 {
            let j = choose|j: int| 0 <= j < t.len() && channel(#[trigger] t[j], right)
                == channel_max(t, right);
            assert(s[j] == t[j]);
        } else if channel_max(s, right) != 0 {
            assert(s[s.len() - 1] == s.last());
        }
    }
}

/// A scaled amplitude never exceeds `UNIT`, and the maximum itself scales to `UNIT`.
pub proof fn lemma_scaled(v: nat, max: nat)
    requires
        v <= max,
    ensures
        scaled(v, max) <= UNIT,
        max > 0 && v == max ==> scaled(v, max) == UNIT,
{
    if max > 0 {
        assert(v * (UNIT as nat) <= max * (UNIT as nat)) by (nonlinear_arith)
            requires
                v <= max,
        ;
        lemma_div_is_ordered((v * (UNIT as nat)) as int, (max * (UNIT as nat)) as int, max as int);
        lemma_div_multiples_vanish(UNIT as int, max as int);
        assert(max * (UNIT as nat) == (max as int) * (UNIT as int));
    }
}

/// Scans one channel for its largest amplitude.
fn find_channel_max(peaks: &Vec<(u32, u32)>, right: bool) -> (r: u32)
    ensures
        r == channel_max(peaks@, right),
{
    let mut m: u32 = 0;
    let mut i: usize = 0;
    while i < peaks.len()
        invariant
            i <= peaks.len(),
            m == channel_max(peaks@.subrange(0, i as int), right),
        decreases peaks.len() - i,
    {
        let p = peaks[i];
        let v = if right {
            p.1
        } else {
            p.0
        };
        assert(peaks@.subrange(0, i + 1).drop_last() == peaks@.subrange(0, i as int));
        if v > m {
            m = v;
        }
        i = i + 1;
    }
    assert(peaks@.subrange(0, i as int) == peaks@);
    m
}

/// `v * UNIT / max`, or zero when `max` is zero.
fn scale(v: u32, max: u32) -> (r: u64)
    ensures
        r == scaled(v as nat, max as nat),
{
    if max == 0 {
        0
    } else {
        assert((v as nat) * (UNIT as nat) <= (u32::MAX as nat) * (UNIT as nat)) by (nonlinear_arith);
        (v as u64) * UNIT / (max as u64)
    }
}

/// Divides each channel by its own maximum, so that the loudest sample of a
/// channel becomes `UNIT`; a channel that is silent throughout stays zero.
pub fn normalize_peaks(peaks: &Vec<(u32, u32)>) -> (r: Vec<PeakPair>)
    ensures
        r@ == normalized(peaks@),
{
    let max_left = find_channel_max(peaks, false);
    let max_right = find_channel_max(peaks, true);
    let mut out: Vec<PeakPair> = Vec::new();
    let mut i: usize = 0;
    proof {
        lemma_channel_max(peaks@, false);
        lemma_channel_max(peaks@, true);
    }
    while i < peaks.len()
        invariant
            i <= peaks.len(),
            max_left == channel_max(peaks@, false),
            max_right == channel_max(peaks@, true),
            forall|k: int| 0 <= k < peaks.len() ==> channel(#[trigger] peaks@[k], false) <= max_left,
            forall|k: int| 0 <= k < peaks.len() ==> channel(#[trigger] peaks@[k], true) <= max_right,
            out@ == normalized(peaks@).subrange(0, i as int),
        decreases peaks.len() - i,
    {
        let p = peaks[i];
        proof {
            assert(channel(peaks@[i as int], false) <= max_left);
            assert(channel(peaks@[i as int], true) <= max_right);
            lemma_scaled(p.0 as nat, max_left as nat);
            lemma_scaled(p.1 as nat, max_right as nat);
        }
        out.push(PeakPair::new(scale(p.0, max_left), scale(p.1, max_right)));
        i = i + 1;
        assert(out@ =~= normalized(peaks@).subrange(0, i as int));
    }
    assert(out@ =~= normalized(peaks@));
    out
}

/// Every normalised value lies in `[0, UNIT]`; a channel whose largest raw
/// amplitude is nonzero reaches exactly `UNIT` somewhere, and a channel that
/// is zero throughout is normalised to zero everywhere.
pub proof fn lemma_normalized_range(s: Seq<(u32, u32)>)
    ensures
        forall|i: int| 0 <= i < s.len() ==> (#[trigger] normalized(s)[i]).left <= UNIT
            && normalized(s)[i].right <= UNIT,
        channel_max(s, false) > 0 ==> exists|i: int|
            0 <= i < s.len() && (#[trigger] normalized(s)[i]).left == UNIT,
        channel_max(s, true) > 0 ==> exists|i: int|
            0 <= i < s.len() && (#[trigger] normalized(s)[i]).right == UNIT,
        channel_max(s, false) == 0 ==> forall|i: int|
            0 <= i < s.len() ==> (#[trigger] normalized(s)[i]).left == 0,
        channel_max(s, true) == 0 ==> forall|i: int|
            0 <= i < s.len() ==> (#[trigger] normalized(s)[i]).right == 0,
{
    lemma_channel_max(s, false);
    lemma_channel_max(s, true);
    assert forall|i: int| 0 <= i < s.len() implies (#[trigger] normalized(s)[i]).left <= UNIT
        && normalized(s)[i].right <= UNIT by {
        lemma_scaled(channel(s[i], false), channel_max(s, false));
        lemma_scaled(channel(s[i], true), channel_max(s, true));
    }
    if channel_max(s, false) > 0 {
        let j = choose|j: int| 0 <= j < s.len() && channel(#[trigger] s[j], false) == channel_max(s, false);
        lemma_scaled(channel(s[j], false), channel_max(s, false));
        assert(normalized(s)[j].left == UNIT);
    }
    if channel_max(s, true) > 0 {
        let j = choose|j: int| 0 <= j < s.len() && channel(#[trigger] s[j], true) == channel_max(s, true);
        lemma_scaled(channel(s[j], true), channel_max(s, true));
        assert(normalized(s)[j].right == UNIT);
    }
}

} // verus!
