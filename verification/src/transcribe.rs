//! The transcription core: the annotation-item model, the word and
//! segment assemblers, the job-completion poller, and the types the
//! finished transcription is delivered in.

use vstd::prelude::*;

pub mod items;
pub mod laws;
pub mod poller;
pub mod processor;
pub mod segmentation;

verus! {

/// A merged run of consecutive annotation items, presented as one timed
/// chunk of transcript text.  Times are whole milliseconds, confidence is
/// in millionths.
#[derive(Debug, Clone)]
pub struct TranscriptSegment {
    pub start_time: u64,
    pub end_time: u64,
    pub text: String,
    pub confidence: Option<u64>,
    pub speaker_id: Option<String>,
}

/// Ghost image of a [`TranscriptSegment`].
pub struct SegView {
    pub start_time: u64,
    pub end_time: u64,
    pub text: Seq<char>,
    pub confidence: Option<u64>,
    pub speaker_id: Option<Seq<char>>,
}

impl View for TranscriptSegment {
    type V = SegView;

    open spec fn view(&self) -> SegView {
        SegView {
            start_time: self.start_time,
            end_time: self.end_time,
            text: self.text@,
            confidence: self.confidence,
            speaker_id: crate::strutil::opt_str_view(&self.speaker_id),
        }
    }
}

/// What is known about a finished transcription run.  Durations are whole
/// milliseconds, the completion instant is milliseconds since the Unix
/// epoch, and the overall confidence is in millionths.
#[derive(Debug, Clone)]
pub struct TranscriptionMetadata {
    pub job_id: String,
    pub language: String,
    pub processing_duration_ms: Option<u64>,
    pub audio_duration_ms: Option<u64>,
    pub confidence: Option<u64>,
    pub completed_at_unix_ms: i64,
}

/// Everything a finished transcription run hands back to the caller.
#[derive(Debug, Clone)]
pub struct TranscriptionResult {
    /// The transcribed text.
    pub transcript: String,
    /// Segments with timestamps.
    pub segments: Vec<TranscriptSegment>,
    /// What was known of the source audio.
    pub audio_info: crate::extractors::AudioInfo,
    /// Where the audio was preserved, when it was.
    pub audio_path: Option<String>,
    pub metadata: TranscriptionMetadata,
}

/// Everything a transcription job is started with.  The caller turns
/// this into the service's request; the choices are made here.
#[derive(Debug, Clone)]
pub struct TranscriptionJobPlan {
    pub media_format: crate::extractors::AudioFormat,
    /// The language to transcribe in, when one was named.
    pub language_code: Option<String>,
    /// Ask the service to detect the language itself.
    pub identify_language: bool,
    pub media_sample_rate_hertz: Option<u32>,
    /// Word-level alternatives are always requested, at the service's
    /// minimum of two.
    pub show_alternatives: bool,
    pub max_alternatives: u8,
    pub show_speaker_labels: bool,
    /// The speaker bound, clamped to the service's 2..=10 range.
    pub max_speaker_labels: Option<u8>,
}

/// The service accepts between two and ten speakers.
pub open spec fn clamped_speakers(v: u8) -> u8 {
    if v < 2 {
        2
    } else if v > 10 {
        10
    } else {
        v
    }
}

/// Decide how a transcription job is started: an explicit language wins
/// over the configured default, and only when neither is named is the
/// service asked to detect one; speaker separation is on when the caller
/// or the configuration asks for it, with the speaker bound falling back
/// to the configured one and then to ten, clamped to the accepted range.
pub fn plan_transcription_job(format: crate::extractors::AudioFormat, sample_rate:
    Option<u32>, language: &Option<String>, default_language: &Option<String>,
    speaker_labels: bool, config_speaker_identification: bool, max_speakers: Option<u8>,
    config_max_speakers: Option<u8>) -> (p: TranscriptionJobPlan)
    ensures
        p.media_format == format,
        p.media_sample_rate_hertz == sample_rate,
        p.show_alternatives,
        p.max_alternatives == 2u8,
        crate::strutil::opt_str_view(&p.language_code) == (match crate::strutil::opt_str_view(
            language) {
            Some(l) => Some(l),
            None => crate::strutil::opt_str_view(default_language),
        }),
        p.identify_language == (language is None && default_language is None),
        p.show_speaker_labels == (speaker_labels || config_speaker_identification),
        p.max_speaker_labels == (if speaker_labels || config_speaker_identification {
            Some(clamped_speakers(match max_speakers {
                Some(m) => m,
                None => match config_max_speakers {
                    Some(m) => m,
                    None => 10u8,
                },
            }))
        } else {
            None::<u8>
        }),
{
    let language_code: Option<String> = match language {
        Some(l) => Some(l.clone()),
        None => match default_language {
            Some(l) => Some(l.clone()),
            None => None,
        },
    };
    let identify_language = language.is_none() && default_language.is_none();
    let enable_speakers = speaker_labels || config_speaker_identification;
    let max_speaker_labels: Option<u8> = if enable_speakers {
        let wanted: u8 = match max_speakers {
            Some(m) => m,
            None => match config_max_speakers {
                Some(m) => m,
                None => 10,
            },
        };
        Some(if wanted < 2 {
            2
        } else if wanted > 10 {
            10
        } else {
            wanted
        })
    } else {
        None
    };
    TranscriptionJobPlan {
        media_format: format,
        language_code,
        identify_language,
        media_sample_rate_hertz: sample_rate,
        show_alternatives: true,
        max_alternatives: 2,
        show_speaker_labels: enable_speakers,
        max_speaker_labels,
    }
}

} // verus!
