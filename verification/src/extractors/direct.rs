//! Direct media URLs: deciding the audio format from the URL or the
//! response's content type, and deriving a display title from the file
//! name.  The HEAD request that fetches the content type is the caller's;
//! everything here is computed from the texts.

use vstd::prelude::*;

use crate::extractors::{
    file_name_exec, file_name_of, format_from_extension, last_dot_exec, last_dot_of,
    AudioFormat, AudioInfo,
};
use crate::strutil::{
    contains_seq, lower_seq, opt_str_view, str_contains, to_ascii_lowercase,
};
use crate::urlinfo::{parse_url, url_path, url_scheme};

verus! {

/// The extension named at the end of a URL's file name, if any (a dot in
/// first position does not count).
pub open spec fn url_extension(u: Seq<char>) -> Option<Seq<char>> {
    if url_scheme(u) is Some {
        let name = file_name_of(url_path(u));
        match last_dot_of(name) {
            Some(i) => if i >= 1 {
                Some(name.subrange(i + 1, name.len() as int))
            } else {
                None
            },
            None => None,
        }
    } else {
        None
    }
}

/// The format a content type names, by substring.
pub open spec fn format_from_content_type(ct: Seq<char>) -> Option<AudioFormat> {
    if contains_seq(ct, "mp3"@) || contains_seq(ct, "mpeg"@) {
        Some(AudioFormat::Mp3)
    } else if contains_seq(ct, "mp4"@) || contains_seq(ct, "m4a"@) {
        Some(AudioFormat::M4a)
    } else if contains_seq(ct, "wav"@) {
        Some(AudioFormat::Wav)
    } else if contains_seq(ct, "flac"@) {
        Some(AudioFormat::Flac)
    } else if contains_seq(ct, "ogg"@) {
        Some(AudioFormat::Ogg)
    } else if contains_seq(ct, "webm"@) {
        Some(AudioFormat::Webm)
    } else {
        None
    }
}

/// The format of a direct URL: from the URL's file extension first, then
/// from the content type, and MP3 when neither says.
pub open spec fn determined_format(u: Seq<char>, ct: Option<Seq<char>>) -> AudioFormat {
    match (match url_extension(u) {
        Some(e) => format_from_extension(e),
        None => None,
    }) {
        Some(f) => f,
        None => match ct {
            Some(c) => match format_from_content_type(c) {
                Some(f) => f,
                None => AudioFormat::Mp3,
            },
            None => AudioFormat::Mp3,
        },
    }
}

fn format_from_content_type_exec(ct: &str) -> (r: Option<AudioFormat>)
    ensures
        r == format_from_content_type(ct@),
{
    if str_contains(ct, "mp3") || str_contains(ct, "mpeg") {
        Some(AudioFormat::Mp3)
    } else if str_contains(ct, "mp4") || str_contains(ct, "m4a") {
        Some(AudioFormat::M4a)
    } else if str_contains(ct, "wav") {
        Some(AudioFormat::Wav)
    } else if str_contains(ct, "flac") {
        Some(AudioFormat::Flac)
    } else if str_contains(ct, "ogg") {
        Some(AudioFormat::Ogg)
    } else if str_contains(ct, "webm") {
        Some(AudioFormat::Webm)
    } else {
        None
    }
}

/// Decide the audio format of a direct URL, as [`determined_format`] says.
pub fn determine_format(url: &str, content_type: Option<&str>) -> (r: AudioFormat)
    ensures
        r == determined_format(url@, match content_type {
            Some(c) => Some(c@),
            None => None,
        }),
{
    let from_url: Option<AudioFormat> = match parse_url(url) {
        Some(parts) => {
            let name = file_name_exec(parts.path.as_str());
            match last_dot_exec(name.as_str()) {
                Some(i) => {
                    if i >= 1 {
                        let nlen = name.as_str().unicode_len();
                        let ext = name.as_str().substring_char(i + 1, nlen);
                        AudioFormat::from_extension(ext)
                    } else {
                        None
                    }
                },
                None => None,
            }
        },
        None => None,
    };
    match from_url {
        Some(f) => f,
        None => match content_type {
            Some(ct) => match format_from_content_type_exec(ct) {
                Some(f) => f,
                None => AudioFormat::Mp3,
            },
            None => AudioFormat::Mp3,
        },
    }
}

/// Whether a URL's text names a common audio or video container.
pub open spec fn is_media_url_spec(u: Seq<char>) -> bool {
    let l = lower_seq(u);
    ||| contains_seq(l, ".mp3"@)
    ||| contains_seq(l, ".m4a"@)
    ||| contains_seq(l, ".wav"@)
    ||| contains_seq(l, ".flac"@)
    ||| contains_seq(l, ".ogg"@)
    ||| contains_seq(l, ".aac"@)
    ||| contains_seq(l, ".mp4"@)
    ||| contains_seq(l, ".avi"@)
    ||| contains_seq(l, ".mov"@)
    ||| contains_seq(l, ".mkv"@)
    ||| contains_seq(l, ".webm"@)
    ||| contains_seq(l, ".m4v"@)
}

/// Check whether a URL looks like a media file, ASCII case-insensitively.
pub fn is_media_url(url: &str) -> (r: bool)
    ensures
        r == is_media_url_spec(url@),
{
    let lower = to_ascii_lowercase(url);
    let l = lower.as_str();
    str_contains(l, ".mp3") || str_contains(l, ".m4a") || str_contains(l, ".wav")
        || str_contains(l, ".flac") || str_contains(l, ".ogg") || str_contains(l, ".aac")
        || str_contains(l, ".mp4") || str_contains(l, ".avi") || str_contains(l, ".mov")
        || str_contains(l, ".mkv") || str_contains(l, ".webm") || str_contains(l, ".m4v")
}

/// A direct URL is supported when it parses and looks like a media file.
pub fn supports_url(url: &str) -> (r: bool)
    ensures
        r == (url_scheme(url@) is Some && is_media_url_spec(url@)),
{
    if parse_url(url).is_none() {
        return false;
    }
    is_media_url(url)
}

/// What percent-decoding makes of a text, or nothing when the decoded
/// bytes are not UTF-8.
pub uninterp spec fn percent_decoded(s: Seq<char>) -> Option<Seq<char>>;

/// Relies on `urlencoding::decode`: percent-decoding is a pure function
/// of the text; it errs exactly when the decoded bytes are not UTF-8.
#[verifier::external_body]
fn percent_decode(s: &str) -> (r: Option<String>)
    ensures
        opt_str_view(&r) == percent_decoded(s@),
{
    match urlencoding::decode(s) {
        Ok(d) => Some(d.into_owned()),
        Err(_) => None,
    }
}

/// The display title a URL's file name yields: the name without its
/// extension (everything before the last dot), percent-decoded when that
/// succeeds, with underscores and hyphens turned into spaces; no title
/// when the file name is empty.
pub open spec fn title_of_filename(f: Seq<char>) -> Option<Seq<char>> {
    if f.len() == 0 {
        None
    } else {
        let stem = match last_dot_of(f) {
            Some(i) => f.subrange(0, i),
            None => f,
        };
        let dec = match percent_decoded(stem) {
            Some(d) => d,
            None => stem,
        };
        Some(dec.map_values(|c: char| if c == '_' || c == '-' {
            ' '
        } else {
            c
        }))
    }
}

/// Derive the display title from a URL's file name, as
/// [`title_of_filename`] says.
pub fn title_from_filename(filename: &str) -> (r: Option<String>)
    ensures
        opt_str_view(&r) == title_of_filename(filename@),
{
    let len = filename.unicode_len();
    if len == 0 {
        return None;
    }
    let stem: String = match last_dot_exec(filename) {
        Some(i) => filename.substring_char(0, i).to_owned(),
        None => filename.to_owned(),
    };
    let dec: String = match percent_decode(stem.as_str()) {
        Some(d) => d,
        None => stem,
    };
    let dlen = dec.as_str().unicode_len();
    let mut out = String::new();
    let mut i: usize = 0;
    while i < dlen
        invariant
            dlen == dec@.len(),
            i <= dlen,
            out@ == dec@.subrange(0, i as int).map_values(|c: char| if c == '_' || c
                == '-' {
                ' '
            } else {
                c
            }),
        decreases dlen - i,
    {
        let c = dec.as_str().get_char(i);
        crate::strutil::push_char(&mut out, if c == '_' || c == '-' {
            ' '
        } else {
            c
        });
        proof {
            assert(out@ =~= dec@.subrange(0, i + 1).map_values(|c: char| if c == '_' || c
                == '-' {
                ' '
            } else {
                c
            }));
        }
        i += 1;
    }
    proof {
        assert(dec@.subrange(0, dec@.len() as int) =~= dec@);
    }
    Some(out)
}

/// Assemble what is known of a direct URL once the caller has fetched
/// the content type and length.
pub fn direct_audio_info(url: &str, content_type: Option<&str>, file_size: Option<u64>)
    -> (info: AudioInfo)
    ensures
        info.download_url@ == url@,
        info.duration_secs is None,
        opt_str_view(&info.title) == (match url_scheme(url@) {
            Some(_) => title_of_filename(file_name_of(url_path(url@))),
            None => None,
        }),
        info.format == determined_format(url@, match content_type {
            Some(c) => Some(c@),
            None => None,
        }),
        info.sample_rate is None,
        info.file_size == file_size,
        info.original_url@ == url@,
{
    let title: Option<String> = match parse_url(url) {
        Some(parts) => {
            let name = file_name_exec(parts.path.as_str());
            title_from_filename(name.as_str())
        },
        None => None,
    };
    AudioInfo {
        download_url: url.to_owned(),
        duration_secs: None,
        title,
        format: determine_format(url, content_type),
        sample_rate: None,
        file_size,
        original_url: url.to_owned(),
    }
}

} // verus!
