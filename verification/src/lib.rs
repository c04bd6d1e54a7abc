//! Voice-activity detection on whole buffers of mono audio: the part that
//! decides.
//!
//! A buffer is cut into ten-millisecond frames. Each frame is compared with
//! three adaptive thresholds (energy, dominant frequency, spectral flatness),
//! labelled voice where at least two comparisons hold, and the labels are
//! smoothed so that neither short pauses nor short bursts survive. This crate
//! holds the framing, the choice of the dominant bin, the vote, the
//! bookkeeping of the noise floor and the smoothing, each with a proved
//! contract. Measuring a frame is real-valued arithmetic and is left to the
//! caller, who hands in magnitudes as ordered integer keys and comparisons as
//! booleans.

pub mod decision;
pub mod detector;
pub mod framing;
pub mod smoothing;
pub mod spectrum;
