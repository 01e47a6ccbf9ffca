//! The error taxonomy of the pipeline: typed failures that callers can
//! branch on, never formatted strings.

use vstd::prelude::*;

verus! {

/// Identity of one of the four inference stages.
#[derive(Clone, Copy, Debug, PartialEq, Eq, Structural)]
pub enum StageKind {
    DurationPredictor,
    TextEncoder,
    VectorEstimator,
    Vocoder,
}

/// Every failure the pipeline can report.
#[derive(Clone, Copy, Debug, PartialEq, Eq, Structural)]
pub enum TtsError {
    /// The requested language is not in the supported set.
    InvalidLanguage,
    /// An algorithm parameter is out of range (for example a non-positive
    /// speed, or a value past a machine limit).
    InvalidParameter,
    /// The unicode index table could not be loaded at startup.
    IndexLoadError,
    /// A voice style is malformed: declared dimensions do not match the
    /// stored data, or the source is missing.
    StyleLoadError,
    /// The configuration is malformed or out of range.
    ConfigLoadError,
    /// A stage execution failed; carries the failing stage's identity.
    InferenceFailure(StageKind),
}

impl StageKind {
    /// A printable name for the stage, for callers that report errors.
    pub fn describe(&self) -> &'static str {
        match self {
            StageKind::DurationPredictor => "duration predictor",
            StageKind::TextEncoder => "text encoder",
            StageKind::VectorEstimator => "vector estimator",
            StageKind::Vocoder => "vocoder",
        }
    }
}

impl TtsError {
    /// A printable name for the error, for callers that report it.
    pub fn describe(&self) -> &'static str {
        match self {
            TtsError::InvalidLanguage => "invalid language",
            TtsError::InvalidParameter => "invalid parameter",
            TtsError::IndexLoadError => "unicode index load failed",
            TtsError::StyleLoadError => "voice style load failed",
            TtsError::ConfigLoadError => "configuration load failed",
            TtsError::InferenceFailure(_) => "inference stage failed",
        }
    }
}

} // verus!
