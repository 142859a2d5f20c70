//! Smoothing of frequency magnitudes for spectrum display.
use vstd::prelude::*;

verus! {

/// Four times the smoothed value at `i`: `d[i-1] + 2 d[i] + d[i+1]` inside
/// the sequence, `4 d[i]` at its two ends.
pub open spec fn quad_smoothed(d: Seq<u8>, i: int) -> int {
    if 0 < i < d.len() - 1 {
        d[i - 1] + 2 * d[i] + d[i + 1]
    } else {
        4 * d[i]
    }
}

/// Whether index `i` of `n` lies strictly inside the middle band,
/// `0.2 < i / n < 0.8`.
pub open spec fn in_mid_band(n: int, i: int) -> bool {
    n < 5 * i && 5 * i < 4 * n
}

/// Output byte `i`: the smoothed value, multiplied by 1.2 in the middle band,
/// capped at 255 and rounded down.
pub open spec fn smoothed_at(d: Seq<u8>, i: int) -> u8 {
    let q = quad_smoothed(d, i);
    if in_mid_band(d.len() as int, i) {
        if 3 * q / 10 > 255 { 255 } else { (3 * q / 10) as u8 }
    } else {
        (q / 4) as u8
    }
}

pub open spec fn smoothed(d: Seq<u8>) -> Seq<u8> {
    Seq::new(d.len(), |i: int| smoothed_at(d, i))
}

/// Smooths each inner value with its two neighbours (weights 1/4, 1/2, 1/4),
/// boosts the middle band of indices by 1.2, caps at 255 and rounds down.
pub fn process_frequency_data(data: &[u8]) -> (r: Vec<u8>)
    ensures
        r@ == smoothed(data@),
{
    let n = data.len();
    let mut out: Vec<u8> = Vec::new();
    let mut i: usize = 0;
    while i < n
        invariant
            n == data@.len(),
            i <= n,
            out@ == smoothed(data@).take(i as int),
        decreases n - i,
    {
        let q: u32 = if i > 0 && i < n - 1 {
            data[i - 1] as u32 + 2 * data[i] as u32 + data[i + 1] as u32
        } else {
            4 * data[i] as u32
        };
        let boost = (n as u128) < 5 * (i as u128) && 5 * (i as u128) < 4 * (n as u128);
        let v: u8 = if boost {
            let t = 3 * q / 10;
            if t > 255 { 255 } else { t as u8 }
        } else {
            (q / 4) as u8
        };
        out.push(v);
        proof { assert(out@ =~= smoothed(data@).take(i + 1)); }
        i += 1;
    }
    proof { assert(out@ =~= smoothed(data@)); }
    out
}

/// An empty input gives an empty output; on a constant input the neighbour
/// weighting changes nothing, so each output byte is the value itself, or
/// 1.2 times it (capped at 255, rounded down) in the middle band.
pub proof fn lemma_smooth_constant(d: Seq<u8>, v: u8)
    requires
        forall|i: int| 0 <= i < d.len() ==> #[trigger] d[i] == v,
    ensures
        smoothed(d).len() == d.len(),
        d.len() == 0 ==> smoothed(d) == Seq::<u8>::empty(),
        forall|i: int| 0 <= i < d.len() ==> #[trigger] smoothed(d)[i] == if in_mid_band(d.len() as int, i) {
            if 6 * v / 5 > 255 { 255 } else { (6 * v / 5) as u8 }
        } else {
            v
        },
{
    assert forall|i: int| 0 <= i < d.len() implies #[trigger] smoothed(d)[i] == if in_mid_band(d.len() as int, i) {
        if 6 * v / 5 > 255 { 255 } else { (6 * v / 5) as u8 }
    } else {
        v
    } by {
        if 0 < i < d.len() - 1 {
            assert(d[i - 1] == v && d[i + 1] == v);
        }
        assert(quad_smoothed(d, i) == 4 * v);
        assert(3 * (4 * v) / 10 == 6 * v / 5);
    }
    if d.len() == 0 {
        assert(smoothed(d) =~= Seq::<u8>::empty());
    }
}

} // verus!
