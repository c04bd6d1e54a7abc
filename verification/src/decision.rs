//! The per-frame voice/silence decision.
//!
//! Each frame is compared with three thresholds; a frame is voice where at
//! least two comparisons hold. Frames are decided strictly in order, because
//! every silence frame moves the energy baseline that later comparisons use.
//! The engine below keeps what that pass carries in whole numbers: the labels
//! given so far and how many of them are silence.

use vstd::prelude::*;
use crate::smoothing::{smooth, smoothed_twice};

verus! {

/// Frames at the start of a buffer from which the baselines are taken.
pub const INIT_FRAMES: usize = 30;

/// Outcome of comparing one frame with the three thresholds in force.
#[derive(Clone, Copy, Debug, PartialEq, Eq, Structural)]
pub struct Votes {
    /// The frame's energy lies at least the energy threshold above the
    /// running baseline.
    pub energy: bool,
    /// The dominant frequency lies at least its threshold above its baseline.
    pub frequency: bool,
    /// The spectral flatness lies at least its threshold above its baseline.
    pub flatness: bool,
}

impl Votes {
    /// Number of comparisons that hold.
    pub open spec fn count(self) -> nat {
        (if self.energy {
            1nat
        } else {
            0nat
        }) + (if self.frequency {
            1nat
        } else {
            0nat
        }) + (if self.flatness {
            1nat
        } else {
            0nat
        })
    }

    /// A frame is voice where at least two of the three comparisons hold.
    pub open spec fn spec_is_voice(self) -> bool {
        self.count() >= 2
    }

    /// Whether these votes label the frame voice.
    pub fn is_voice(&self) -> (voice: bool)
        ensures
            voice == self.spec_is_voice(),
    {
        (self.energy && self.frequency) || (self.energy && self.flatness) || (self.frequency
            && self.flatness)
    }
}

/// What the caller owes the energy baseline after a frame was decided.
#[derive(Clone, Copy, Debug, PartialEq, Eq, Structural)]
pub enum Outcome {
    /// The frame is voice; the baseline stays.
    Voice,
    /// The frame is silence. The baseline becomes the mean of
    /// `prior_silences` times the old baseline and the frame's energy, that
    /// is, their sum divided by `prior_silences + 1`.
    Silence { prior_silences: usize },
}

/// Labels that a sequence of votes gives, frame by frame.
pub open spec fn labels_of(votes: Seq<Votes>) -> Seq<bool> {
    Seq::new(votes.len(), |i: int| votes[i].spec_is_voice())
}

/// Number of silence labels in `labels`.
pub open spec fn silence_count(labels: Seq<bool>) -> nat
    decreases labels.len(),
{
    if labels.len() == 0 {
        0
    } else {
        silence_count(labels.drop_last()) + if labels.last() {
            0nat
        } else {
            1nat
        }
    }
}

/// One byte per label: 1 for voice, 0 for silence.
pub open spec fn spec_to_bytes(labels: Seq<bool>) -> Seq<u8> {
    Seq::new(
        labels.len(),
        |i: int|
            if labels[i] {
                1u8
            } else {
                0u8
            },
    )
}

/// The detector's output for the raw labels of a buffer: both smoothing
/// passes, then one byte per frame.
pub open spec fn spec_decide(labels: Seq<bool>) -> Seq<u8> {
    spec_to_bytes(smoothed_twice(labels))
}

/// Number of frames from which the baselines are taken.
pub open spec fn spec_init_frames(num_frames: nat) -> nat {
    if num_frames < INIT_FRAMES {
        num_frames
    } else {
        INIT_FRAMES as nat
    }
}

/// State and outcome after an engine for `capacity` frames that holds
/// `labels` is handed the votes of the next frame.
pub open spec fn spec_step(labels: Seq<bool>, capacity: nat, votes: Votes) -> (
    Seq<bool>,
    Option<Outcome>,
) {
    if labels.len() >= capacity {
        (labels, None)
    } else if votes.spec_is_voice() {
        (labels.push(true), Some(Outcome::Voice))
    } else {
        (
            labels.push(false),
            Some(Outcome::Silence { prior_silences: silence_count(labels) as usize }),
        )
    }
}

/// Labels that an engine for `capacity` frames holds after it was handed
/// `votes` one by one, starting with no frame decided.
pub open spec fn spec_run(capacity: nat, votes: Seq<Votes>) -> Seq<bool>
    decreases votes.len(),
{
    if votes.len() == 0 {
        Seq::<bool>::empty()
    } else {
        spec_step(spec_run(capacity, votes.drop_last()), capacity, votes.last()).0
    }
}

/// A further label adds one to the silence count exactly when it is silence.
pub proof fn lemma_silence_count_push(labels: Seq<bool>, voice: bool)
    ensures
        silence_count(labels.push(voice)) == silence_count(labels) + if voice {
            0nat
        } else {
            1nat
        },
{
    assert(labels.push(voice).drop_last() =~= labels);
}

/// There are no more silence labels than labels.
pub proof fn lemma_silence_count_bound(labels: Seq<bool>)
    ensures
        silence_count(labels) <= labels.len(),
    decreases labels.len(),
{
    if labels.len() > 0 {
        lemma_silence_count_bound(labels.drop_last());
    }
}

/// Driving an engine frame by frame labels each frame by its own votes: the
/// labels it holds are those of the votes it was handed, up to its capacity.
/// What it was handed after that changes nothing.
pub proof fn lemma_run_labels(capacity: nat, votes: Seq<Votes>)
    ensures
        votes.len() <= capacity ==> spec_run(capacity, votes) == labels_of(votes),
        votes.len() > capacity ==> spec_run(capacity, votes) == labels_of(
            votes.take(capacity as int),
        ),
    decreases votes.len(),
{
    if votes.len() == 0 {
        assert(spec_run(capacity, votes) =~= labels_of(votes));
    } else {
        let front = votes.drop_last();
        lemma_run_labels(capacity, front);
        if votes.len() <= capacity {
            assert(spec_run(capacity, votes) =~= labels_of(votes));
        } else if front.len() <= capacity {
            assert(front =~= votes.take(capacity as int));
        } else {
            assert(front.take(capacity as int) =~= votes.take(capacity as int));
        }
    }
}

/// The output has one byte per label; a byte is 1 where the smoothed label
/// is voice and 0 where it is silence.
pub proof fn lemma_decide_shape(labels: Seq<bool>)
    ensures
        spec_decide(labels).len() == labels.len(),
        forall|i: int|
            0 <= i < labels.len() ==> (#[trigger] spec_decide(labels)[i] == 1 <==> smoothed_twice(
                labels,
            )[i]),
        forall|i: int|
            0 <= i < labels.len() ==> (#[trigger] spec_decide(labels)[i] == 0 <==> !smoothed_twice(
                labels,
            )[i]),
{
}

/// Number of leading frames over which the caller takes the minimum energy,
/// dominant frequency and flatness: [`INIT_FRAMES`], or all frames of a
/// shorter buffer.
pub fn init_frames(num_frames: usize) -> (n: usize)
    ensures
        n == spec_init_frames(num_frames as nat),
{
    if num_frames < INIT_FRAMES {
        num_frames
    } else {
        INIT_FRAMES
    }
}

/// Turns labels into bytes: 1 for voice, 0 for silence.
pub fn to_bytes(labels: &[bool]) -> (bytes: Vec<u8>)
    ensures
        bytes@ == spec_to_bytes(labels@),
{
    let mut bytes: Vec<u8> = Vec::with_capacity(labels.len());
    let mut i: usize = 0;
    while i < labels.len()
        invariant
            i <= labels@.len(),
            bytes@.len() == i,
            forall|k: int| 0 <= k < i ==> bytes@[k] == spec_to_bytes(labels@)[k],
        decreases labels@.len() - i,
    {
        if labels[i] {
            bytes.push(1u8);
        } else {
            bytes.push(0u8);
        }
        i += 1;
    }
    bytes
}

/// Smooths the raw labels of a buffer and turns them into bytes.
pub fn decide(labels: &[bool]) -> (bytes: Vec<u8>)
    ensures
        bytes@ == spec_decide(labels@),
        bytes@.len() == labels@.len(),
{
    let smoothed: Vec<bool> = smooth(labels);
    to_bytes(smoothed.as_slice())
}

/// The decision pass over one buffer, driven frame by frame.
///
/// The caller compares each frame with the thresholds in force, hands the
/// votes to [`DecisionEngine::step`], goes on with the engine that comes
/// back, and moves the energy baseline as the returned [`Outcome`] says
/// before it compares the next frame. The view of
/// an engine is the sequence of raw labels given so far.
pub struct DecisionEngine {
    num_frames: usize,
    labels: Vec<bool>,
    silences: usize,
}

impl View for DecisionEngine {
    type V = Seq<bool>;

    closed spec fn view(&self) -> Seq<bool> {
        self.labels@
    }
}

impl DecisionEngine {
    #[verifier::type_invariant]
    spec fn well_formed(self) -> bool {
        &&& self.labels@.len() <= self.num_frames
        &&& self.silences == silence_count(self.labels@)
    }

    /// Number of frames that the engine decides.
    pub closed spec fn capacity(&self) -> nat {
        self.num_frames as nat
    }

    /// An engine for a buffer of `num_frames` frames, with no frame decided.
    pub fn new(num_frames: usize) -> (engine: DecisionEngine)
        ensures
            engine.capacity() == num_frames,
            engine@ == Seq::<bool>::empty(),
    {
        DecisionEngine { num_frames, labels: Vec::new(), silences: 0 }
    }

    /// Index of the frame whose votes the engine expects next, or `None` once
    /// every frame is decided.
    pub fn next_frame(&self) -> (next: Option<usize>)
        ensures
            self@.len() <= self.capacity(),
            self@.len() < self.capacity() ==> next == Some(self@.len() as usize),
            self@.len() == self.capacity() ==> next is None,
    {
        proof {
            use_type_invariant(self);
        }
        if self.labels.len() < self.num_frames {
            Some(self.labels.len())
        } else {
            None
        }
    }

    /// Number of frames labelled silence so far.
    pub fn silences(&self) -> (n: usize)
        ensures
            n == silence_count(self@),
    {
        proof {
            use_type_invariant(self);
        }
        self.silences
    }

    /// Decides the next frame from its votes and returns the engine that
    /// follows, as [`spec_step`] says. The frame is voice where at least two
    /// votes hold. On silence the outcome carries the number of silence
    /// frames before this one, which weighs the old baseline in the running
    /// mean. Once every frame is decided the engine comes back unchanged,
    /// with no outcome.
    pub fn step(self, votes: Votes) -> (r: (DecisionEngine, Option<Outcome>))
        ensures
            r.0.capacity() == self.capacity(),
            (r.0@, r.1) == spec_step(self@, self.capacity(), votes),
            silence_count(self@) <= self@.len() <= self.capacity(),
    {
        proof {
            use_type_invariant(&self);
            lemma_silence_count_bound(self.labels@);
        }
        if self.labels.len() >= self.num_frames {
            return (self, None);
        }
        let DecisionEngine { num_frames, mut labels, silences } = self;
        let voice: bool = votes.is_voice();
        proof {
            lemma_silence_count_push(labels@, voice);
        }
        labels.push(voice);
        if voice {
            (DecisionEngine { num_frames, labels, silences }, Some(Outcome::Voice))
        } else {
            (
                DecisionEngine { num_frames, labels, silences: silences + 1 },
                Some(Outcome::Silence { prior_silences: silences }),
            )
        }
    }

    /// Ends the pass: smooths the labels given so far and returns one byte
    /// per decided frame, 1 for voice and 0 for silence.
    pub fn finish(self) -> (bytes: Vec<u8>)
        ensures
            bytes@ == spec_decide(self@),
            bytes@.len() == self@.len(),
    {
        decide(self.labels.as_slice())
    }
}

} // verus!
