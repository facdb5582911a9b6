//! Speaker-aware transcript post-processing for an asynchronous
//! speech-to-text service.
//!
//! The crate covers the two computational halves of a transcription run:
//! the job-completion polling state machine (adaptive backoff, terminal
//! state classification) and the transcript assembler that turns the
//! flat word-level annotation stream into timed, speaker-pure segments.
//! Times are carried as whole milliseconds and confidences as millionths,
//! so every rule about gaps, caps and means is stated and proved exactly.

pub mod cli;
pub mod config;
pub mod extractors;
pub mod numeric;
pub mod transcribe;
pub mod urlinfo;
pub mod utils;
pub mod strutil;

use vstd::prelude::*;

verus! {

/// Error cases surfaced by the library, mirroring the stages of a
/// transcription run that can fail.
#[derive(Debug, Clone, PartialEq, Eq)]
pub enum TranscriptorError {
    UnsupportedUrl(String),
    AudioExtractionFailed(String),
    TranscriptionFailed(String),
    AwsConfigError(String),
    FileError(String),
}

impl TranscriptorError {
    /// The payload carried by the error, whichever stage produced it.
    pub fn detail(&self) -> (r: &String)
        ensures
            r@ == self.spec_detail(),
    {
        match self {
            TranscriptorError::UnsupportedUrl(s) => s,
            TranscriptorError::AudioExtractionFailed(s) => s,
            TranscriptorError::TranscriptionFailed(s) => s,
            TranscriptorError::AwsConfigError(s) => s,
            TranscriptorError::FileError(s) => s,
        }
    }

    pub open spec fn spec_detail(&self) -> Seq<char> {
        match self {
            TranscriptorError::UnsupportedUrl(s) => s@,
            TranscriptorError::AudioExtractionFailed(s) => s@,
            TranscriptorError::TranscriptionFailed(s) => s@,
            TranscriptorError::AwsConfigError(s) => s@,
            TranscriptorError::FileError(s) => s@,
        }
    }
}

} // verus!
