//! Verified core of a multilingual text-to-speech synthesis pipeline.
//!
//! The library covers the synthesis orchestration: text normalization,
//! sentence and chunk segmentation, unicode-to-index mapping with attention
//! masking, the four-stage inference sequence (duration prediction, text
//! encoding, iterative latent denoising, vocoding) driven as a state machine,
//! and audio reassembly with inter-chunk silence insertion.  The neural
//! executor itself, file loading and audio container encoding live outside
//! the library and talk to it through plain values.

pub mod audio;
pub mod chunk;
pub mod config;
pub mod engine;
pub mod errors;
pub mod lang;
pub mod latent;
pub mod segment;
pub mod style;
pub mod textnorm;
pub mod textutil;
pub mod vocab;
