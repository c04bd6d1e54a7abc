//! The detector: a validated sample rate and what follows from it.

use vstd::prelude::*;
use crate::decision::{labels_of, spec_decide, DecisionEngine, Votes};
use crate::framing::{
    frame, frame_size, num_frames, spec_frame, spec_frame_size, spec_num_frames,
    valid_sample_rate, ConfigError, MIN_FRAME_SIZE,
};
use crate::spectrum::{spec_spectrum_bins, spectrum_bins};

verus! {

/// Frequency of a spectrum bin in Hz, as the exact ratio
/// `numerator / denominator`.
#[derive(Clone, Copy, Debug, PartialEq, Eq, Structural)]
pub struct BinFrequency {
    pub numerator: u64,
    pub denominator: u64,
}

/// A voice-activity detector for audio at one sample rate. It exists only
/// for rates whose frames hold at least [`MIN_FRAME_SIZE`] samples.
pub struct VAD {
    sample_rate: u32,
    frame_size: usize,
}

impl VAD {
    #[verifier::type_invariant]
    spec fn well_formed(self) -> bool {
        &&& valid_sample_rate(self.sample_rate)
        &&& self.frame_size == spec_frame_size(self.sample_rate)
    }

    /// The sample rate in Hz.
    pub closed spec fn spec_sample_rate(&self) -> u32 {
        self.sample_rate
    }

    /// Samples in one frame.
    pub open spec fn spec_frame_size(&self) -> nat {
        spec_frame_size(self.spec_sample_rate())
    }

    /// Whole frames in a buffer of `len` samples.
    pub open spec fn spec_num_frames(&self, len: nat) -> nat {
        spec_num_frames(len, self.spec_frame_size())
    }

    /// A detector for audio at `sample_rate` Hz. Rates under 200 Hz are
    /// refused: their frames are too short to taper.
    pub fn new(sample_rate: u32) -> (r: Result<VAD, ConfigError>)
        ensures
            r is Ok <==> valid_sample_rate(sample_rate),
            r matches Ok(vad) ==> vad.spec_sample_rate() == sample_rate,
            r matches Err(e) ==> e == ConfigError::FrameTooShort,
    {
        match frame_size(sample_rate) {
            Ok(size) => Ok(VAD { sample_rate, frame_size: size }),
            Err(e) => Err(e),
        }
    }

    /// The sample rate in Hz.
    pub fn sample_rate(&self) -> (rate: u32)
        ensures
            rate == self.spec_sample_rate(),
            valid_sample_rate(rate),
    {
        proof {
            use_type_invariant(self);
        }
        self.sample_rate
    }

    /// Samples in one frame: a hundredth of the sample rate, rounded down.
    pub fn frame_size(&self) -> (size: usize)
        ensures
            size == self.spec_frame_size(),
            size >= MIN_FRAME_SIZE,
    {
        proof {
            use_type_invariant(self);
        }
        self.frame_size
    }

    /// Whole frames in a buffer of `len` samples; samples after the last
    /// whole frame are left out.
    pub fn num_frames(&self, len: usize) -> (n: usize)
        ensures
            n == self.spec_num_frames(len as nat),
    {
        proof {
            use_type_invariant(self);
        }
        num_frames(len, self.frame_size)
    }

    /// Frame `index` of `samples`, or `None` where the buffer holds no such
    /// whole frame.
    pub fn frame<'a, T>(&self, samples: &'a [T], index: usize) -> (out: Option<&'a [T]>)
        ensures
            out is Some <==> index < self.spec_num_frames(samples@.len()),
            out matches Some(f) ==> f@ == spec_frame(
                samples@,
                self.spec_frame_size(),
                index as nat,
            ),
            out matches Some(f) ==> f@.len() == self.spec_frame_size(),
    {
        proof {
            use_type_invariant(self);
        }
        frame(samples, self.frame_size, index)
    }

    /// Bins in the half spectrum of a frame; at least one.
    pub fn spectrum_bins(&self) -> (bins: usize)
        ensures
            bins == spec_spectrum_bins(self.spec_frame_size()),
            bins >= 1,
    {
        proof {
            use_type_invariant(self);
        }
        spectrum_bins(self.frame_size)
    }

    /// Frequency of bin `bin` of the half spectrum: `bin` times the sample
    /// rate, over the frame size. `None` for a bin outside the half spectrum.
    pub fn bin_frequency(&self, bin: usize) -> (hz: Option<BinFrequency>)
        ensures
            hz is Some <==> bin < spec_spectrum_bins(self.spec_frame_size()),
            hz matches Some(f) ==> f.numerator == bin * self.spec_sample_rate() && f.denominator
                == self.spec_frame_size(),
    {
        proof {
            use_type_invariant(self);
        }
        if bin < self.frame_size / 2 {
            assert(bin * self.sample_rate <= u64::MAX) by (nonlinear_arith)
                requires
                    bin < 0x1_0000_0000,
                    self.sample_rate < 0x1_0000_0000,
            ;
            Some(
                BinFrequency {
                    numerator: (bin as u64) * (self.sample_rate as u64),
                    denominator: self.frame_size as u64,
                },
            )
        } else {
            None
        }
    }

    /// A decision engine for a buffer of `len` samples, with no frame
    /// decided.
    pub fn engine(&self, len: usize) -> (engine: DecisionEngine)
        ensures
            engine.capacity() == self.spec_num_frames(len as nat),
            engine@ == Seq::<bool>::empty(),
    {
        DecisionEngine::new(self.num_frames(len))
    }

    /// Decides a buffer of `len` samples from the votes of its frames, one
    /// entry of `votes` per whole frame, in order: a frame is voice where at
    /// least two of its votes hold, the labels are smoothed, and each frame
    /// gives one byte, 1 for voice and 0 for silence. `None` where `votes`
    /// does not hold exactly one entry per whole frame.
    pub fn detect_voice(&self, len: usize, votes: &[Votes]) -> (r: Option<Vec<u8>>)
        ensures
            r is Some <==> votes@.len() == self.spec_num_frames(len as nat),
            r matches Some(bytes) ==> bytes@ == spec_decide(labels_of(votes@)),
            r matches Some(bytes) ==> bytes@.len() == self.spec_num_frames(len as nat),
    {
        let n: usize = self.num_frames(len);
        if votes.len() != n {
            return None;
        }
        let mut engine: DecisionEngine = DecisionEngine::new(n);
        let mut i: usize = 0;
        while i < n
            invariant
                i <= n,
                n == votes@.len(),
                engine.capacity() == n,
                engine@ == labels_of(votes@.take(i as int)),
            decreases n - i,
        {
            let (next, _) = engine.step(votes[i]);
            proof {
                assert(labels_of(votes@.take(i as int)).push(votes@[i as int].spec_is_voice())
                    =~= labels_of(votes@.take(i + 1)));
            }
            engine = next;
            i += 1;
        }
        proof {
            assert(votes@.take(n as int) =~= votes@);
        }
        Some(engine.finish())
    }
}

} // verus!
