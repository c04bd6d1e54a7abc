//! Reading a frame's magnitude spectrum.
//!
//! Only the first half of a real signal's spectrum carries information, so a
//! frame of `frame_size` samples has `frame_size / 2` bins. Magnitudes are
//! taken as integer keys that are ordered as the magnitudes are; for
//! non-negative IEEE-754 single-precision values the bit pattern is such a
//! key.

use vstd::prelude::*;

verus! {

/// Bins in the half spectrum of a frame of `frame_size` samples.
pub open spec fn spec_spectrum_bins(frame_size: nat) -> nat {
    frame_size / 2
}

/// `bin` holds the largest magnitude, and no bin before it holds as much.
pub open spec fn is_dominant_bin(magnitudes: Seq<u32>, bin: int) -> bool {
    &&& 0 <= bin < magnitudes.len()
    &&& forall|k: int| 0 <= k < magnitudes.len() ==> magnitudes[k] <= magnitudes[bin]
    &&& forall|k: int| 0 <= k < bin ==> magnitudes[k] < magnitudes[bin]
}

/// A spectrum has at most one dominant bin.
pub proof fn lemma_dominant_bin_unique(magnitudes: Seq<u32>, a: int, b: int)
    requires
        is_dominant_bin(magnitudes, a),
        is_dominant_bin(magnitudes, b),
    ensures
        a == b,
{
    if a < b {
        assert(magnitudes[a] < magnitudes[b]);
        assert(magnitudes[b] <= magnitudes[a]);
    } else if b < a {
        assert(magnitudes[b] < magnitudes[a]);
        assert(magnitudes[a] <= magnitudes[b]);
    }
}

/// Where two bins `j < k` share the largest magnitude and every other bin
/// holds less, the dominant bin is `j`.
pub proof fn lemma_tie_goes_to_lower_bin(magnitudes: Seq<u32>, j: int, k: int, bin: int)
    requires
        0 <= j < k < magnitudes.len(),
        magnitudes[j] == magnitudes[k],
        forall|i: int|
            0 <= i < magnitudes.len() && i != j && i != k ==> magnitudes[i] < magnitudes[j],
    ensures
        is_dominant_bin(magnitudes, j),
        is_dominant_bin(magnitudes, bin) ==> bin == j,
{
    assert(is_dominant_bin(magnitudes, j));
    if is_dominant_bin(magnitudes, bin) {
        lemma_dominant_bin_unique(magnitudes, j, bin);
    }
}

/// Number of bins in the half spectrum of a frame of `frame_size` samples.
pub fn spectrum_bins(frame_size: usize) -> (bins: usize)
    ensures
        bins == spec_spectrum_bins(frame_size as nat),
{
    frame_size / 2
}

/// Index of the largest magnitude; among equal largest ones the lowest index.
/// `None` for an empty spectrum.
pub fn dominant_bin(magnitudes: &[u32]) -> (r: Option<usize>)
    ensures
        r is None <==> magnitudes@.len() == 0,
        r matches Some(bin) ==> is_dominant_bin(magnitudes@, bin as int),
{
    if magnitudes.len() == 0 {
        return None;
    }
    let mut best: usize = 0;
    let mut i: usize = 1;
    while i < magnitudes.len()
        invariant
            0 <= best < i <= magnitudes@.len(),
            forall|k: int| 0 <= k < i ==> magnitudes@[k] <= magnitudes@[best as int],
            forall|k: int| 0 <= k < best ==> magnitudes@[k] < magnitudes@[best as int],
        decreases magnitudes@.len() - i,
    {
        if magnitudes[i] > magnitudes[best] {
            best = i;
        }
        i += 1;
    }
    Some(best)
}

} // verus!
