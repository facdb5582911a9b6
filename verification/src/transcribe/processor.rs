//! Turning a completed job's raw annotation document into the finished,
//! typed transcription: full text, segments, word list and metadata.
//!
//! Fetching the document and asking the service for job status are the
//! caller's business; everything here is computation over the document.

use vstd::prelude::*;

use crate::strutil::opt_str_view;
use crate::transcribe::items::{
    extract_words, items_view, words_of, words_view, RawTranscriptItem, WordTimestamp,
};
use crate::transcribe::segmentation::{
    average_confidence, build_segments, overall_confidence, seg_confidences, segments_of,
    segs_view,
};
use crate::transcribe::{TranscriptSegment, TranscriptionMetadata};

verus! {

/// The raw annotation document of a completed job, already decoded from
/// its wire form: the top-level transcript text per alternative, and the
/// ordered item stream.
#[derive(Debug, Clone)]
pub struct TranscriptDocument {
    pub transcripts: Vec<String>,
    pub items: Vec<RawTranscriptItem>,
}

/// The finished product: full text, timed segments, the word list, and
/// metadata about the run.
#[derive(Debug, Clone)]
pub struct ProcessedTranscription {
    pub transcript: String,
    pub segments: Vec<TranscriptSegment>,
    pub metadata: TranscriptionMetadata,
    pub words: Option<Vec<WordTimestamp>>,
}

/// Processor for one transcription job: remembers which job it serves and
/// the segment-length cap (whole milliseconds) the caller asked for.
pub struct TranscriptionProcessor {
    pub job_id: String,
    pub max_segment_length_ms: u64,
}

/// Relies on chrono's `Utc::now`: the current instant, as milliseconds
/// since the Unix epoch.  Nothing can be promised of a clock reading.
#[verifier::external_body]
fn now_unix_ms() -> i64 {
    chrono::Utc::now().timestamp_millis()
}

impl TranscriptionProcessor {
    pub fn new(job_id: String, max_segment_length_ms: u64) -> (p: Self)
        ensures
            p.job_id == job_id,
            p.max_segment_length_ms == max_segment_length_ms,
    {
        TranscriptionProcessor { job_id, max_segment_length_ms }
    }

    /// Both passes over the item stream: the word list and the segment
    /// list, exactly as [`words_of`] and [`segments_of`] describe them.
    pub fn process_segments(&self, items: &Vec<RawTranscriptItem>) -> (r: (Vec<
        TranscriptSegment>, Vec<WordTimestamp>))
        ensures
            segs_view(r.0@) == segments_of(items_view(items@), self.max_segment_length_ms),
            words_view(r.1@) == words_of(items_view(items@)),
    {
        let words = extract_words(items);
        let segments = build_segments(items, self.max_segment_length_ms);
        (segments, words)
    }

    /// Mean of the per-segment confidences, ignoring segments without one.
    pub fn calculate_average_confidence(&self, segments: &Vec<TranscriptSegment>) -> (r:
        Option<u64>)
        ensures
            r == overall_confidence(segs_view(segments@)),
    {
        let mut confidences: Vec<u64> = Vec::new();
        let mut i: usize = 0;
        while i < segments.len()
            invariant
                i <= segments@.len(),
                confidences@ == seg_confidences(segs_view(segments@).take(i as int)),
            decreases segments@.len() - i,
        {
            proof {
                assert(segs_view(segments@).take(i + 1).drop_last() =~= segs_view(
                    segments@).take(i as int));
                assert(segs_view(segments@).take(i + 1).last() == segments@[i as int]@);
            }
            if let Some(c) = segments[i].confidence {
                confidences.push(c);
            }
            i += 1;
        }
        proof {
            assert(segs_view(segments@).take(segments@.len() as int) =~= segs_view(
                segments@));
        }
        average_confidence(&confidences)
    }

    /// Assemble the finished transcription from the decoded document.
    ///
    /// The full text is the document's first top-level transcript (empty
    /// when there is none — it is a fallback value, never rebuilt from
    /// segments); the segments and words come from the two passes; the
    /// audio duration is the end of the last segment; the overall
    /// confidence is the mean of the per-segment means.  The completion
    /// instant is read from the clock, so nothing is claimed of it.
    pub fn process_transcription_result(&self, doc: &TranscriptDocument, language:
        &Option<String>, processing_duration_ms: u64) -> (p: ProcessedTranscription)
        ensures
            ({
                let segs = segments_of(items_view(doc.items@), self.max_segment_length_ms);
                &&& p.transcript@ == (if doc.transcripts@.len() > 0 {
                    doc.transcripts@[0]@
                } else {
                    Seq::<char>::empty()
                })
                &&& segs_view(p.segments@) == segs
                &&& (p.words matches Some(w) && words_view(w@) == words_of(items_view(
                    doc.items@)))
                &&& p.metadata.job_id@ == self.job_id@
                &&& p.metadata.language@ == (match opt_str_view(language) {
                    Some(l) => l,
                    None => "unknown"@,
                })
                &&& p.metadata.processing_duration_ms == Some(processing_duration_ms)
                &&& p.metadata.audio_duration_ms == (if segs.len() > 0 {
                    Some(segs.last().end_time)
                } else {
                    None::<u64>
                })
                &&& p.metadata.confidence == overall_confidence(segs)
            }),
    {
        let transcript: String = if doc.transcripts.len() > 0 {
            doc.transcripts[0].clone()
        } else {
            String::new()
        };
        let (segments, words) = self.process_segments(&doc.items);
        let audio_duration_ms: Option<u64> = if segments.len() > 0 {
            Some(segments[segments.len() - 1].end_time)
        } else {
            None
        };
        proof {
            if segments@.len() > 0 {
                assert(segs_view(segments@).last() == segments@[segments@.len() - 1]@);
            }
        }
        let confidence = self.calculate_average_confidence(&segments);
        let lang: String = match language {
            Some(l) => l.clone(),
            None => {
                let mut s = String::new();
                s.append("unknown");
                proof {
                    assert(Seq::<char>::empty() + "unknown"@ =~= "unknown"@);
                }
                s
            },
        };
        let metadata = TranscriptionMetadata {
            job_id: self.job_id.clone(),
            language: lang,
            processing_duration_ms: Some(processing_duration_ms),
            audio_duration_ms,
            confidence,
            completed_at_unix_ms: now_unix_ms(),
        };
        ProcessedTranscription { transcript, segments, metadata, words: Some(words) }
    }
}

} // verus!
