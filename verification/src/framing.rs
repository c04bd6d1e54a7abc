//! Cutting a sample buffer into fixed-length, non-overlapping frames.
//!
//! A frame lasts ten milliseconds, so its length follows from the sample
//! rate alone. Samples after the last whole frame belong to no frame. The
//! functions here are generic in the sample type: framing never looks at a
//! sample's value.

use vstd::prelude::*;
use vstd::slice::slice_subrange;

verus! {

/// Frames per second of audio.
pub const FRAMES_PER_SECOND: u32 = 100;

/// Shortest frame, in samples, on which the taper is defined.
pub const MIN_FRAME_SIZE: usize = 2;

/// Why a configuration is refused.
#[derive(Clone, Copy, Debug, PartialEq, Eq, Structural)]
pub enum ConfigError {
    /// The sample rate gives frames of fewer than [`MIN_FRAME_SIZE`] samples.
    FrameTooShort,
}

/// Samples in one frame at `sample_rate` Hz: a hundredth of the rate,
/// rounded down.
pub open spec fn spec_frame_size(sample_rate: u32) -> nat {
    (sample_rate / FRAMES_PER_SECOND) as nat
}

/// Whether frames at `sample_rate` Hz are long enough to be tapered.
pub open spec fn valid_sample_rate(sample_rate: u32) -> bool {
    spec_frame_size(sample_rate) >= MIN_FRAME_SIZE
}

/// Whole frames in a buffer of `len` samples.
pub open spec fn spec_num_frames(len: nat, frame_size: nat) -> nat
    recommends
        frame_size > 0,
{
    len / frame_size
}

/// Samples of frame `index`.
pub open spec fn spec_frame<T>(samples: Seq<T>, frame_size: nat, index: nat) -> Seq<T>
    recommends
        frame_size > 0,
        index < spec_num_frames(samples.len(), frame_size),
{
    samples.subrange((index * frame_size) as int, ((index + 1) * frame_size) as int)
}

/// All frames of a buffer, in order.
pub open spec fn spec_frames<T>(samples: Seq<T>, frame_size: nat) -> Seq<Seq<T>>
    recommends
        frame_size > 0,
{
    Seq::new(
        spec_num_frames(samples.len(), frame_size),
        |i: int| spec_frame(samples, frame_size, i as nat),
    )
}

/// Every frame lies inside the buffer, and what follows the last frame is
/// shorter than a frame.
pub proof fn lemma_frame_bounds(len: nat, frame_size: nat, index: nat)
    requires
        frame_size > 0,
        index < spec_num_frames(len, frame_size),
    ensures
        index * frame_size + frame_size == (index + 1) * frame_size,
        (index + 1) * frame_size <= spec_num_frames(len, frame_size) * frame_size,
        spec_num_frames(len, frame_size) * frame_size <= len,
        len - spec_num_frames(len, frame_size) * frame_size < frame_size,
{
    let n = len / frame_size;
    assert(n * frame_size <= len && len - n * frame_size < frame_size) by (nonlinear_arith)
        requires
            frame_size > 0,
            n == len / frame_size,
    ;
    assert((index + 1) * frame_size <= n * frame_size) by (nonlinear_arith)
        requires
            index + 1 <= n,
    ;
    assert(index * frame_size + frame_size == (index + 1) * frame_size) by (nonlinear_arith);
}

/// The number of whole frames is the only count `n` with
/// `n * frame_size <= len < (n + 1) * frame_size`.
pub proof fn lemma_num_frames_unique(len: nat, frame_size: nat, n: nat)
    requires
        frame_size > 0,
        n * frame_size <= len < (n + 1) * frame_size,
    ensures
        spec_num_frames(len, frame_size) == n,
{
    let q = len / frame_size;
    assert(q == n) by (nonlinear_arith)
        requires
            frame_size > 0,
            q == len / frame_size,
            n * frame_size <= len < (n + 1) * frame_size,
    ;
}

/// Samples after the last whole frame change nothing: two buffers with the
/// same number `n` of whole frames that agree on their first
/// `n * frame_size` samples have the same frames.
pub proof fn lemma_trailing_samples_ignored<T>(a: Seq<T>, b: Seq<T>, frame_size: nat)
    requires
        frame_size > 0,
        spec_num_frames(a.len(), frame_size) == spec_num_frames(b.len(), frame_size),
        forall|k: int|
            0 <= k < spec_num_frames(a.len(), frame_size) * frame_size ==> a[k] == b[k],
    ensures
        spec_frames(a, frame_size) == spec_frames(b, frame_size),
{
    let n = spec_num_frames(a.len(), frame_size);
    assert forall|i: int| 0 <= i < n implies spec_frames(a, frame_size)[i] == spec_frames(
        b,
        frame_size,
    )[i] by {
        lemma_frame_bounds(a.len(), frame_size, i as nat);
        lemma_frame_bounds(b.len(), frame_size, i as nat);
        assert(spec_frame(a, frame_size, i as nat) =~= spec_frame(b, frame_size, i as nat));
    }
    assert(spec_frames(a, frame_size) =~= spec_frames(b, frame_size));
}

/// Cutting a buffer down to its whole frames keeps the number of frames and
/// every frame.
pub proof fn lemma_truncation<T>(samples: Seq<T>, frame_size: nat)
    requires
        frame_size > 0,
    ensures
        spec_num_frames(samples.len(), frame_size) * frame_size <= samples.len(),
        spec_num_frames(
            samples.take((spec_num_frames(samples.len(), frame_size) * frame_size) as int).len(),
            frame_size,
        ) == spec_num_frames(samples.len(), frame_size),
        spec_frames(
            samples.take((spec_num_frames(samples.len(), frame_size) * frame_size) as int),
            frame_size,
        ) == spec_frames(samples, frame_size),
{
    let n = spec_num_frames(samples.len(), frame_size);
    assert(n * frame_size <= samples.len()) by (nonlinear_arith)
        requires
            frame_size > 0,
            n == samples.len() / frame_size,
    ;
    let kept = samples.take((n * frame_size) as int);
    assert(n * frame_size < (n + 1) * frame_size) by (nonlinear_arith)
        requires
            frame_size > 0,
    ;
    lemma_num_frames_unique(kept.len(), frame_size, n);
    lemma_trailing_samples_ignored(kept, samples, frame_size);
}

/// Length of a frame at `sample_rate` Hz, or the reason why the rate is
/// refused.
pub fn frame_size(sample_rate: u32) -> (r: Result<usize, ConfigError>)
    ensures
        valid_sample_rate(sample_rate) ==> r == Ok::<usize, ConfigError>(
            spec_frame_size(sample_rate) as usize,
        ),
        !valid_sample_rate(sample_rate) ==> r == Err::<usize, ConfigError>(
            ConfigError::FrameTooShort,
        ),
{
    let size: usize = (sample_rate / FRAMES_PER_SECOND) as usize;
    if size >= MIN_FRAME_SIZE {
        Ok(size)
    } else {
        Err(ConfigError::FrameTooShort)
    }
}

/// Counts the whole frames in a buffer of `len` samples; a trailing partial
/// frame is not counted.
pub fn num_frames(len: usize, frame_size: usize) -> (n: usize)
    requires
        frame_size > 0,
    ensures
        n == spec_num_frames(len as nat, frame_size as nat),
{
    len / frame_size
}

/// Frame `index` of `samples`, or `None` where the buffer holds no such whole
/// frame.
pub fn frame<'a, T>(samples: &'a [T], frame_size: usize, index: usize) -> (out: Option<&'a [T]>)
    requires
        frame_size > 0,
    ensures
        out is Some <==> index < spec_num_frames(samples@.len(), frame_size as nat),
        out matches Some(f) ==> f@ == spec_frame(samples@, frame_size as nat, index as nat),
        out matches Some(f) ==> f@.len() == frame_size,
{
    if index < samples.len() / frame_size {
        proof {
            lemma_frame_bounds(samples@.len(), frame_size as nat, index as nat);
        }
        let start: usize = index * frame_size;
        let end: usize = start + frame_size;
        Some(slice_subrange(samples, start, end))
    } else {
        None
    }
}

} // verus!
