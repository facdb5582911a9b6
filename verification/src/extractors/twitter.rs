//! Twitter/X sources: recognizing the URL shapes and tidying the tweet
//! text into a display title.  Running the external downloader is the
//! caller's.

use vstd::prelude::*;

use crate::extractors::{AudioFormat, AudioInfo};
use crate::strutil::{contains_seq, lower_seq, opt_str_view, str_contains,
    to_ascii_lowercase, trim_spaces, trim_spaces_exec};

verus! {

/// Extractor for Twitter/X URLs, working through an external `yt-dlp`
/// executable the caller invokes.
pub struct TwitterExtractor {
    pub yt_dlp_path: String,
}

/// The URL shapes recognized as Twitter/X, ASCII case-insensitively.
pub open spec fn is_twitter_url(u: Seq<char>) -> bool {
    let l = lower_seq(u);
    ||| contains_seq(l, "twitter.com/"@)
    ||| contains_seq(l, "x.com/"@)
    ||| contains_seq(l, "mobile.twitter.com/"@)
    ||| contains_seq(l, "m.twitter.com/"@)
}

/// A tweet's text tidied into a title: newlines become spaces, the ends
/// are trimmed of spaces, and anything over 100 characters is cut to 97
/// plus an ellipsis.
pub open spec fn cleaned_description(s: Seq<char>) -> Seq<char> {
    let t = trim_spaces(s.map_values(|c: char| if c == '\n' {
        ' '
    } else {
        c
    }));
    if t.len() > 100 {
        t.subrange(0, 97) + "..."@
    } else {
        t
    }
}

impl TwitterExtractor {
    pub fn new() -> (r: Self)
        ensures
            r.yt_dlp_path@ == "yt-dlp"@,
    {
        TwitterExtractor { yt_dlp_path: "yt-dlp".to_owned() }
    }

    /// Whether this extractor recognizes the URL, as [`is_twitter_url`].
    pub fn supports_url(&self, url: &str) -> (r: bool)
        ensures
            r == is_twitter_url(url@),
    {
        let lower = to_ascii_lowercase(url);
        let l = lower.as_str();
        str_contains(l, "twitter.com/") || str_contains(l, "x.com/") || str_contains(l,
            "mobile.twitter.com/") || str_contains(l, "m.twitter.com/")
    }

    /// Tidy a tweet's text into a title, as [`cleaned_description`] says.
    pub fn clean_description(&self, s: &str) -> (r: String)
        ensures
            r@ == cleaned_description(s@),
    {
        let len = s.unicode_len();
        let mut mapped = String::new();
        let mut i: usize = 0;
        while i < len
            invariant
                len == s@.len(),
                i <= len,
                mapped@ == s@.subrange(0, i as int).map_values(|c: char| if c == '\n' {
                    ' '
                } else {
                    c
                }),
            decreases len - i,
        {
            let c = s.get_char(i);
            crate::strutil::push_char(&mut mapped, if c == '\n' {
                ' '
            } else {
                c
            });
            proof {
                assert(mapped@ =~= s@.subrange(0, i + 1).map_values(|c: char| if c
                    == '\n' {
                    ' '
                } else {
                    c
                }));
            }
            i += 1;
        }
        proof {
            assert(s@.subrange(0, s@.len() as int) =~= s@);
        }
        let trimmed = trim_spaces_exec(mapped.as_str());
        let tlen = trimmed.as_str().unicode_len();
        if tlen > 100 {
            let mut out = trimmed.as_str().substring_char(0, 97).to_owned();
            out.append("...");
            out
        } else {
            trimmed
        }
    }

    /// Assemble what is known of a Twitter/X source once the caller has
    /// read its metadata: the locator carries the original URL under a
    /// "twitter-dlp://" marker, since the download goes through the
    /// external tool, always producing MP3.
    pub fn twitter_audio_info(&self, url: &str, title: Option<String>, duration_secs:
        Option<u64>) -> (info: AudioInfo)
        ensures
            info.download_url@ == "twitter-dlp://"@ + url@,
            info.duration_secs == duration_secs,
            opt_str_view(&info.title) == opt_str_view(&title),
            info.format == AudioFormat::Mp3,
            info.sample_rate == Some(44100u32),
            info.file_size is None,
            info.original_url@ == url@,
    {
        let mut download_url = String::new();
        download_url.append("twitter-dlp://");
        download_url.append(url);
        proof {
            assert(Seq::<char>::empty() + "twitter-dlp://"@ + url@ =~= "twitter-dlp://"@
                + url@);
        }
        AudioInfo {
            download_url,
            duration_secs,
            title,
            format: AudioFormat::Mp3,
            sample_rate: Some(44100),
            file_size: None,
            original_url: url.to_owned(),
        }
    }
}

} // verus!
