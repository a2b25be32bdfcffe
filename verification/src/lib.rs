//! Demodulation of frequency-shift-keyed cassette recordings.
//!
//! The stages run leaves first: samples are normalized into an exact
//! fixed-point signal, pulse periods are measured, a classification
//! threshold is estimated, inter-record gaps are marked, runs of pulses are
//! collapsed into bit cells, and the bit stream is framed into data chunks.
//! All arithmetic is exact integer arithmetic.

pub mod error;
pub mod single;
pub mod signal;
pub mod wave;
pub mod pulse;
pub mod threshold;
pub mod irg;
pub mod runlength;
pub mod frame;
pub mod container;
pub mod pipeline;
