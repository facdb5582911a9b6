use transcriptor::cli::OutputFormat;
use transcriptor::config::Config;
use transcriptor::extractors::direct;
use transcriptor::extractors::local::LocalFileExtractor;
use transcriptor::extractors::twitter::TwitterExtractor;
use transcriptor::extractors::youtube::YoutubeExtractor;
use transcriptor::extractors::{is_local_file_input, validate_url, AudioFormat};
use transcriptor::transcribe::plan_transcription_job;
use transcriptor::TranscriptorError;

#[test]
fn audio_format_names_and_mime_types() {
    assert_eq!(AudioFormat::Mp3.as_str(), "mp3");
    assert_eq!(AudioFormat::Webm.as_str(), "webm");
    assert_eq!(AudioFormat::Mp3.mime_type(), "audio/mpeg");
    assert_eq!(AudioFormat::M4a.mime_type(), "audio/mp4");
    assert_eq!(AudioFormat::from_extension("MP3"), Some(AudioFormat::Mp3));
    assert_eq!(AudioFormat::from_extension("aac"), Some(AudioFormat::M4a));
    assert_eq!(AudioFormat::from_extension("txt"), None);
}

#[test]
fn local_extractor_reads_extension() {
    let x = LocalFileExtractor::new();
    assert_eq!(x.get_audio_format("/tmp/song.mp3"), AudioFormat::Mp3);
    assert_eq!(x.get_audio_format("clip.wav"), AudioFormat::Wav);
    // Video and unknown extensions fall back to MP3 for conversion.
    assert_eq!(x.get_audio_format("video.mkv"), AudioFormat::Mp3);
    assert_eq!(x.get_audio_format("noext"), AudioFormat::Mp3);
}

#[test]
fn local_prepare_plan_copies_or_converts() {
    let x = LocalFileExtractor::new();
    assert_eq!(x.prepare_audio_plan("a.mp3"), (AudioFormat::Mp3, false));
    assert_eq!(x.prepare_audio_plan("a.m4a"), (AudioFormat::M4a, false));
    assert_eq!(x.prepare_audio_plan("a.wav"), (AudioFormat::Mp3, true));
    assert_eq!(x.prepare_audio_plan("a.mp4"), (AudioFormat::Mp3, true));
}

#[test]
fn local_audio_info_builds_locator_and_title() {
    let x = LocalFileExtractor::new();
    let info = x.local_audio_info("dir/talk.wav", "/abs/dir/talk.wav", Some(90),
        Some(4096));
    assert_eq!(info.download_url, "local-file:///abs/dir/talk.wav");
    assert_eq!(info.title.as_deref(), Some("talk"));
    assert_eq!(info.format, AudioFormat::Wav);
    assert_eq!(info.duration_secs, Some(90));
    assert_eq!(info.file_size, Some(4096));
    assert_eq!(info.sample_rate, Some(44100));
}

#[test]
fn youtube_and_twitter_url_recognition() {
    let yt = YoutubeExtractor::new();
    assert!(yt.supports_url("https://www.YouTube.com/watch?v=abc"));
    assert!(yt.supports_url("https://youtu.be/abc"));
    assert!(!yt.supports_url("https://example.com/a.mp3"));
    let tw = TwitterExtractor::new();
    assert!(tw.supports_url("https://twitter.com/u/status/1"));
    assert!(tw.supports_url("https://x.com/u/status/1"));
    assert!(!tw.supports_url("https://example.com/"));
}

#[test]
fn twitter_description_is_tidied() {
    let tw = TwitterExtractor::new();
    assert_eq!(tw.clean_description("  hello\nworld  "), "hello world");
    let long = "a".repeat(150);
    let cleaned = tw.clean_description(&long);
    assert_eq!(cleaned.len(), 100);
    assert!(cleaned.ends_with("..."));
}

#[test]
fn direct_format_decision() {
    assert_eq!(
        direct::determine_format("https://example.com/music/song.mp3", None),
        AudioFormat::Mp3
    );
    assert_eq!(
        direct::determine_format("https://example.com/stream", Some("audio/ogg")),
        AudioFormat::Ogg
    );
    // Nothing recognizable falls back to MP3.
    assert_eq!(
        direct::determine_format("https://example.com/stream", Some("text/html")),
        AudioFormat::Mp3
    );
}

#[test]
fn direct_title_is_decoded_and_despaced() {
    // The percent-decoding really ran: "%20" became a space.
    assert_eq!(
        direct::title_from_filename("My%20Favorite_Song.mp3").as_deref(),
        Some("My Favorite Song")
    );
    assert_eq!(direct::title_from_filename(""), None);
}

#[test]
fn direct_media_url_recognition() {
    assert!(direct::is_media_url("https://example.com/A.MP3"));
    assert!(direct::supports_url("https://example.com/a.mp3"));
    assert!(!direct::supports_url("https://example.com/page.html"));
    assert!(!direct::supports_url("not a url at all.mp3x"));
}

#[test]
fn local_file_detection() {
    assert!(!is_local_file_input("https://example.com/a.mp3", false));
    assert!(is_local_file_input("anything", true));
    assert!(is_local_file_input("song.mp3", false));
    assert!(is_local_file_input("dir/clip", false));
    assert!(is_local_file_input("./clip", false));
    assert!(!is_local_file_input("justaword", false));
}

#[test]
fn validate_url_returns_parts() {
    let parts = validate_url("https://example.com/a/b").unwrap();
    assert_eq!(parts.scheme, "https");
    assert_eq!(parts.host.as_deref(), Some("example.com"));
    assert_eq!(parts.path, "/a/b");
    match validate_url("ftp://example.com") {
        Err(TranscriptorError::UnsupportedUrl(_)) => {}
        other => panic!("expected UnsupportedUrl, got {:?}", other),
    }
}

#[test]
fn default_config_needs_a_bucket() {
    let config = Config::default();
    assert_eq!(config.aws.region, "us-east-1");
    assert_eq!(config.aws.s3_bucket, "");
    match config.validate() {
        Err(TranscriptorError::AwsConfigError(m)) => {
            assert_eq!(m, "AWS S3 bucket must be configured");
        }
        other => panic!("expected AwsConfigError, got {:?}", other),
    }
    let mut ok = Config::default();
    ok.aws.s3_bucket = "my-bucket".to_string();
    assert!(ok.validate().is_ok());
}

#[test]
fn output_format_names() {
    assert_eq!(OutputFormat::Text.as_str(), "text");
    assert_eq!(OutputFormat::Json.as_str(), "json");
    assert_eq!(OutputFormat::Srt.as_str(), "srt");
    assert_eq!(OutputFormat::Vtt.as_str(), "vtt");
    assert_eq!(OutputFormat::Csv.as_str(), "csv");
}

#[test]
fn job_plan_language_and_speakers() {
    let plan = plan_transcription_job(
        AudioFormat::Mp3,
        Some(44100),
        &None,
        &Some("en-GB".to_string()),
        true,
        false,
        Some(15),
        None,
    );
    assert_eq!(plan.language_code.as_deref(), Some("en-GB"));
    assert!(!plan.identify_language);
    assert!(plan.show_speaker_labels);
    assert_eq!(plan.max_speaker_labels, Some(10));
    assert!(plan.show_alternatives);
    assert_eq!(plan.max_alternatives, 2);

    let auto = plan_transcription_job(
        AudioFormat::Wav,
        None,
        &None,
        &None,
        false,
        false,
        None,
        None,
    );
    assert!(auto.identify_language);
    assert_eq!(auto.language_code, None);
    assert!(!auto.show_speaker_labels);
    assert_eq!(auto.max_speaker_labels, None);

    let one = plan_transcription_job(
        AudioFormat::Mp3,
        None,
        &Some("de-DE".to_string()),
        &None,
        false,
        true,
        Some(1),
        None,
    );
    assert_eq!(one.language_code.as_deref(), Some("de-DE"));
    assert_eq!(one.max_speaker_labels, Some(2));
}

#[test]
fn transcriptor_error_details() {
    let e = TranscriptorError::TranscriptionFailed("no audio".to_string());
    assert_eq!(e.detail().as_str(), "no audio");
}
