use transcriptor::transcribe::items::RawTranscriptItem;
use transcriptor::transcribe::processor::{TranscriptDocument, TranscriptionProcessor};
use transcriptor::transcribe::segmentation::average_confidence;

fn pron(text: &str, start: &str, end: &str, conf: Option<&str>, speaker: Option<&str>)
    -> RawTranscriptItem {
    RawTranscriptItem {
        item_type: "pronunciation".to_string(),
        start_time: Some(start.to_string()),
        end_time: Some(end.to_string()),
        content: text.to_string(),
        confidence: conf.map(|c| c.to_string()),
        speaker_label: speaker.map(|s| s.to_string()),
    }
}

fn punct(text: &str) -> RawTranscriptItem {
    RawTranscriptItem {
        item_type: "punctuation".to_string(),
        start_time: None,
        end_time: None,
        content: text.to_string(),
        confidence: None,
        speaker_label: None,
    }
}

fn processor(max_ms: u64) -> TranscriptionProcessor {
    TranscriptionProcessor::new("job-1".to_string(), max_ms)
}

#[test]
fn scenario_single_segment_with_punctuation() {
    // "Hello"(0.0-0.5), "world"(0.5-1.0), "." -> one segment 0..1000,
    // text "Hello world." with the period attached without a space.
    let items = vec![
        pron("Hello", "0.0", "0.5", None, None),
        pron("world", "0.5", "1.0", None, None),
        punct("."),
    ];
    let (segments, words) = processor(10000).process_segments(&items);
    assert_eq!(segments.len(), 1);
    assert_eq!(segments[0].start_time, 0);
    assert_eq!(segments[0].end_time, 1000);
    assert_eq!(segments[0].text, "Hello world.");
    assert_eq!(segments[0].speaker_id, None);
    assert_eq!(words.len(), 2);
}

#[test]
fn scenario_time_gap_splits() {
    // A 2.0 s silence between the words forces a split.
    let items = vec![
        pron("one", "0.0", "1.0", None, None),
        pron("two", "3.0", "4.0", None, None),
    ];
    let (segments, _) = processor(10000).process_segments(&items);
    assert_eq!(segments.len(), 2);
    assert_eq!(segments[0].text, "one");
    assert_eq!(segments[0].end_time, 1000);
    assert_eq!(segments[1].text, "two");
    assert_eq!(segments[1].start_time, 3000);
}

#[test]
fn gap_of_exactly_one_second_does_not_split() {
    let items = vec![
        pron("one", "0.0", "1.0", None, None),
        pron("two", "2.0", "3.0", None, None),
    ];
    let (segments, _) = processor(10000).process_segments(&items);
    assert_eq!(segments.len(), 1);
    assert_eq!(segments[0].text, "one two");
}

#[test]
fn scenario_length_cap_splits() {
    // max_segment_length = 10 s; a single speaker keeps talking past it
    // with no gap over a second and no punctuation: the word starting
    // after the 10 s mark opens a new segment.
    let items = vec![
        pron("a", "0.0", "1.0", None, None),
        pron("b", "2.0", "3.0", None, None),
        pron("c", "4.0", "5.0", None, None),
        pron("d", "5.5", "6.5", None, None),
        pron("e", "7.0", "8.0", None, None),
        pron("f", "8.5", "9.5", None, None),
        pron("g", "10.5", "11.5", None, None),
        pron("h", "11.5", "12.0", None, None),
    ];
    let (segments, _) = processor(10000).process_segments(&items);
    assert!(segments.len() >= 2);
    assert_eq!(segments[0].start_time, 0);
    assert_eq!(segments[0].end_time, 9500);
    assert_eq!(segments[1].start_time, 10500);
    assert_eq!(segments[1].text, "g h");
}

#[test]
fn scenario_speaker_change_splits() {
    // The speaker changes mid-stream with no gap and a short span: the
    // split is due to the speaker change alone.
    let items = vec![
        pron("hi", "0.0", "1.0", Some("0.9"), Some("spk_0")),
        pron("there", "1.0", "2.0", Some("0.8"), Some("spk_0")),
        pron("hello", "2.0", "3.0", Some("0.7"), Some("spk_1")),
    ];
    let (segments, _) = processor(10000).process_segments(&items);
    assert_eq!(segments.len(), 2);
    assert_eq!(segments[0].speaker_id.as_deref(), Some("spk_0"));
    assert_eq!(segments[0].text, "hi there");
    assert_eq!(segments[1].speaker_id.as_deref(), Some("spk_1"));
    assert_eq!(segments[1].text, "hello");
    assert_eq!(segments[1].start_time, 2000);
}

#[test]
fn natural_break_past_half_window_splits() {
    // "two." ends a sentence and starts past half the 10 s window, with
    // no gap over a second: it opens a new segment.
    let items = vec![
        pron("one", "0.0", "5.4", None, None),
        pron("two.", "5.8", "6.5", None, None),
    ];
    let (segments, _) = processor(10000).process_segments(&items);
    assert_eq!(segments.len(), 2);
    assert_eq!(segments[0].text, "one");
    assert_eq!(segments[1].text, "two.");
}

#[test]
fn sentence_end_before_half_window_does_not_split() {
    let items = vec![
        pron("one", "0.0", "1.0", None, None),
        pron("two.", "1.5", "2.0", None, None),
    ];
    let (segments, _) = processor(10000).process_segments(&items);
    assert_eq!(segments.len(), 1);
    assert_eq!(segments[0].text, "one two.");
}

#[test]
fn unreadable_times_keep_text_but_drop_word() {
    // An item whose times do not read as numbers still contributes its
    // text, but no word, no timing and no confidence.
    let items = vec![
        pron("Hello", "0.0", "0.5", Some("0.9"), None),
        pron("oops", "x", "y", Some("0.5"), None),
        pron("world", "0.9", "1.4", Some("0.7"), None),
    ];
    let (segments, words) = processor(10000).process_segments(&items);
    assert_eq!(segments.len(), 1);
    assert_eq!(segments[0].text, "Hello oops world");
    assert_eq!(segments[0].start_time, 0);
    assert_eq!(segments[0].end_time, 1400);
    // The unreadable item's confidence was still readable, so it counts:
    // mean of 0.9, 0.5, 0.7 in millionths.
    assert_eq!(segments[0].confidence, Some(700000));
    assert_eq!(words.len(), 2);
    assert_eq!(words[0].word, "Hello");
    assert_eq!(words[1].word, "world");
}

#[test]
fn word_list_is_complete_and_in_order() {
    let items = vec![
        pron("a", "1.5", "2.25", Some("0.99"), Some("spk_0")),
        punct(","),
        pron("b", "2.5", "3.0", None, Some("spk_0")),
    ];
    let (_, words) = processor(10000).process_segments(&items);
    assert_eq!(words.len(), 2);
    assert_eq!(words[0].word, "a");
    assert_eq!(words[0].start_time, 1500);
    assert_eq!(words[0].end_time, 2250);
    assert_eq!(words[0].confidence, Some(990000));
    assert_eq!(words[0].speaker_id.as_deref(), Some("spk_0"));
    assert_eq!(words[1].word, "b");
    assert_eq!(words[1].start_time, 2500);
}

#[test]
fn empty_stream_yields_nothing() {
    let items: Vec<RawTranscriptItem> = Vec::new();
    let (segments, words) = processor(10000).process_segments(&items);
    assert_eq!(segments.len(), 0);
    assert_eq!(words.len(), 0);
}

#[test]
fn test_confidence_mean_idempotent() {
    // Aggregating the same list twice yields the same value, and the
    // mean of an empty list is no value, not zero.
    let confidences = vec![900000u64, 950000u64, 1000000u64];
    let first = average_confidence(&confidences);
    let second = average_confidence(&confidences);
    assert_eq!(first, second);
    assert_eq!(first, Some(950000));
    let empty: Vec<u64> = Vec::new();
    assert_eq!(average_confidence(&empty), None);
}

#[test]
fn segment_ordering_on_mixed_input() {
    // Several split causes in one stream: segments stay ordered and
    // non-overlapping.
    let items = vec![
        pron("a", "0.0", "1.0", None, Some("spk_0")),
        pron("b", "1.2", "2.0", None, Some("spk_0")),
        pron("c", "4.0", "5.0", None, Some("spk_0")),
        pron("d", "5.0", "6.0", None, Some("spk_1")),
        punct("!"),
    ];
    let (segments, _) = processor(10000).process_segments(&items);
    assert_eq!(segments.len(), 3);
    for w in segments.windows(2) {
        assert!(w[0].start_time <= w[0].end_time);
        assert!(w[0].end_time <= w[1].start_time);
    }
    assert_eq!(segments[2].text, "d!");
}

#[test]
fn document_processing_fills_metadata() {
    let doc = TranscriptDocument {
        transcripts: vec!["Hello world.".to_string()],
        items: vec![
            pron("Hello", "0.0", "0.5", Some("0.8"), None),
            pron("world", "0.5", "1.0", Some("0.8"), None),
            punct("."),
        ],
    };
    let p = TranscriptionProcessor::new("job-42".to_string(), 10000);
    let done = p.process_transcription_result(&doc, &Some("en-US".to_string()), 1234);
    assert_eq!(done.transcript, "Hello world.");
    assert_eq!(done.segments.len(), 1);
    assert_eq!(done.metadata.job_id, "job-42");
    assert_eq!(done.metadata.language, "en-US");
    assert_eq!(done.metadata.processing_duration_ms, Some(1234));
    assert_eq!(done.metadata.audio_duration_ms, Some(1000));
    assert_eq!(done.metadata.confidence, Some(800000));
    assert!(done.metadata.completed_at_unix_ms > 0);
    let words = done.words.expect("words are always produced");
    assert_eq!(words.len(), 2);
}

#[test]
fn document_without_language_reads_unknown() {
    let doc = TranscriptDocument { transcripts: Vec::new(), items: Vec::new() };
    let p = TranscriptionProcessor::new("job-7".to_string(), 10000);
    let done = p.process_transcription_result(&doc, &None, 5);
    assert_eq!(done.transcript, "");
    assert_eq!(done.metadata.language, "unknown");
    assert_eq!(done.metadata.audio_duration_ms, None);
    assert_eq!(done.metadata.confidence, None);
}
