//! YouTube sources: recognizing the URL shapes and assembling what an
//! external downloader reports.  Running the downloader is the caller's.

use vstd::prelude::*;

use crate::extractors::{AudioFormat, AudioInfo};
use crate::strutil::{contains_seq, lower_seq, opt_str_view, str_contains,
    to_ascii_lowercase};

verus! {

/// Extractor for YouTube URLs, working through an external `yt-dlp`
/// executable the caller invokes.
pub struct YoutubeExtractor {
    pub yt_dlp_path: String,
}

/// The URL shapes recognized as YouTube, ASCII case-insensitively.
pub open spec fn is_youtube_url(u: Seq<char>) -> bool {
    let l = lower_seq(u);
    ||| contains_seq(l, "youtube.com/watch"@)
    ||| contains_seq(l, "youtu.be/"@)
    ||| contains_seq(l, "youtube.com/embed/"@)
    ||| contains_seq(l, "youtube.com/v/"@)
    ||| contains_seq(l, "m.youtube.com/"@)
}

impl YoutubeExtractor {
    pub fn new() -> (r: Self)
        ensures
            r.yt_dlp_path@ == "yt-dlp"@,
    {
        YoutubeExtractor { yt_dlp_path: "yt-dlp".to_owned() }
    }

    /// Whether this extractor recognizes the URL, as [`is_youtube_url`].
    pub fn supports_url(&self, url: &str) -> (r: bool)
        ensures
            r == is_youtube_url(url@),
    {
        let lower = to_ascii_lowercase(url);
        let l = lower.as_str();
        str_contains(l, "youtube.com/watch") || str_contains(l, "youtu.be/")
            || str_contains(l, "youtube.com/embed/") || str_contains(l, "youtube.com/v/")
            || str_contains(l, "m.youtube.com/")
    }

    /// Assemble what is known of a YouTube source once the caller has
    /// read its metadata: the locator carries the original URL under a
    /// "yt-dlp://" marker, since the download itself goes through the
    /// external tool, always producing MP3.
    pub fn youtube_audio_info(&self, url: &str, title: Option<String>, duration_secs:
        Option<u64>) -> (info: AudioInfo)
        ensures
            info.download_url@ == "yt-dlp://"@ + url@,
            info.duration_secs == duration_secs,
            opt_str_view(&info.title) == opt_str_view(&title),
            info.format == AudioFormat::Mp3,
            info.sample_rate == Some(44100u32),
            info.file_size is None,
            info.original_url@ == url@,
    {
        let mut download_url = String::new();
        download_url.append("yt-dlp://");
        download_url.append(url);
        proof {
            assert(Seq::<char>::empty() + "yt-dlp://"@ + url@ =~= "yt-dlp://"@ + url@);
        }
        AudioInfo {
            download_url,
            duration_secs,
            title,
            format: AudioFormat::Mp3,
            sample_rate: Some(44100),
            file_size: None,
            original_url: url.to_owned(),
        }
    }
}

} // verus!
