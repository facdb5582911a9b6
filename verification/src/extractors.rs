//! The audio-source side of the pipeline: formats, the information an
//! extractor reports about a source, and the pure decision logic the
//! per-platform extractors share.  Network and subprocess work stays with
//! the caller; what stands here is everything that can be computed from
//! the texts alone.

use vstd::prelude::*;

pub mod direct;
pub mod local;
pub mod twitter;
pub mod youtube;

use crate::strutil::{lower_seq, starts_with_seq, str_eq, str_starts_with, to_ascii_lowercase};
use crate::urlinfo::{parse_url, url_scheme, UrlParts};
use crate::TranscriptorError;

verus! {

/// The audio container formats the pipeline handles.
#[derive(Debug, Clone, Copy, PartialEq, Eq, Structural)]
pub enum AudioFormat {
    Mp3,
    M4a,
    Wav,
    Flac,
    Ogg,
    Webm,
}

pub open spec fn format_name(f: AudioFormat) -> Seq<char> {
    match f {
        AudioFormat::Mp3 => "mp3"@,
        AudioFormat::M4a => "m4a"@,
        AudioFormat::Wav => "wav"@,
        AudioFormat::Flac => "flac"@,
        AudioFormat::Ogg => "ogg"@,
        AudioFormat::Webm => "webm"@,
    }
}

pub open spec fn format_mime(f: AudioFormat) -> Seq<char> {
    match f {
        AudioFormat::Mp3 => "audio/mpeg"@,
        AudioFormat::M4a => "audio/mp4"@,
        AudioFormat::Wav => "audio/wav"@,
        AudioFormat::Flac => "audio/flac"@,
        AudioFormat::Ogg => "audio/ogg"@,
        AudioFormat::Webm => "audio/webm"@,
    }
}

/// The format a file extension names, matched ASCII case-insensitively;
/// "aac" counts as M4a.
pub open spec fn format_from_extension(ext: Seq<char>) -> Option<AudioFormat> {
    let l = lower_seq(ext);
    if l == "mp3"@ {
        Some(AudioFormat::Mp3)
    } else if l == "m4a"@ || l == "aac"@ {
        Some(AudioFormat::M4a)
    } else if l == "wav"@ {
        Some(AudioFormat::Wav)
    } else if l == "flac"@ {
        Some(AudioFormat::Flac)
    } else if l == "ogg"@ {
        Some(AudioFormat::Ogg)
    } else if l == "webm"@ {
        Some(AudioFormat::Webm)
    } else {
        None
    }
}

impl AudioFormat {
    /// The format's usual file extension.
    pub fn as_str(&self) -> (r: &'static str)
        ensures
            r@ == format_name(*self),
    {
        match self {
            AudioFormat::Mp3 => "mp3",
            AudioFormat::M4a => "m4a",
            AudioFormat::Wav => "wav",
            AudioFormat::Flac => "flac",
            AudioFormat::Ogg => "ogg",
            AudioFormat::Webm => "webm",
        }
    }

    /// The format a file extension names, as [`format_from_extension`].
    pub fn from_extension(ext: &str) -> (r: Option<AudioFormat>)
        ensures
            r == format_from_extension(ext@),
    {
        let lower = to_ascii_lowercase(ext);
        let l = lower.as_str();
        if str_eq(l, "mp3") {
            Some(AudioFormat::Mp3)
        } else if str_eq(l, "m4a") || str_eq(l, "aac") {
            Some(AudioFormat::M4a)
        } else if str_eq(l, "wav") {
            Some(AudioFormat::Wav)
        } else if str_eq(l, "flac") {
            Some(AudioFormat::Flac)
        } else if str_eq(l, "ogg") {
            Some(AudioFormat::Ogg)
        } else if str_eq(l, "webm") {
            Some(AudioFormat::Webm)
        } else {
            None
        }
    }

    /// The format's MIME type.
    pub fn mime_type(&self) -> (r: &'static str)
        ensures
            r@ == format_mime(*self),
    {
        match self {
            AudioFormat::Mp3 => "audio/mpeg",
            AudioFormat::M4a => "audio/mp4",
            AudioFormat::Wav => "audio/wav",
            AudioFormat::Flac => "audio/flac",
            AudioFormat::Ogg => "audio/ogg",
            AudioFormat::Webm => "audio/webm",
        }
    }
}

/// What an extractor reports about a source: where to fetch the audio,
/// what is known of it, and the URL the user gave.  The duration is in
/// whole seconds.
#[derive(Debug, Clone)]
pub struct AudioInfo {
    pub download_url: String,
    pub duration_secs: Option<u64>,
    pub title: Option<String>,
    pub format: AudioFormat,
    pub sample_rate: Option<u32>,
    pub file_size: Option<u64>,
    pub original_url: String,
}

/// Check that a string parses as an HTTP or HTTPS URL and hand back what
/// was read out of it.
pub fn validate_url(url: &str) -> (r: Result<UrlParts, TranscriptorError>)
    ensures
        url_scheme(url@) is None ==> (r matches Err(TranscriptorError::UnsupportedUrl(m))
            && m@ == "Invalid URL format: "@ + url@),
        (url_scheme(url@) matches Some(sch) && !crate::urlinfo::is_web_scheme(sch)) ==> (
        r matches Err(TranscriptorError::UnsupportedUrl(m)) && m@
            == "URL must use HTTP or HTTPS protocol"@),
        (url_scheme(url@) matches Some(sch) && crate::urlinfo::is_web_scheme(sch)) ==> (
        r matches Ok(p) && p.scheme@ == url_scheme(url@).unwrap()
            && crate::strutil::opt_str_view(&p.host)
            == crate::urlinfo::url_host(url@) && p.serialized@
            == crate::urlinfo::url_serialized(url@)),
{
    match parse_url(url) {
        None => {
            let mut m = String::new();
            m.append("Invalid URL format: ");
            m.append(url);
            proof {
                assert(Seq::<char>::empty() + "Invalid URL format: "@ + url@
                    =~= "Invalid URL format: "@ + url@);
            }
            Err(TranscriptorError::UnsupportedUrl(m))
        },
        Some(parts) => {
            if crate::urlinfo::is_web_scheme_exec(parts.scheme.as_str()) {
                Ok(parts)
            } else {
                let mut m = String::new();
                m.append("URL must use HTTP or HTTPS protocol");
                proof {
                    assert(Seq::<char>::empty() + "URL must use HTTP or HTTPS protocol"@
                        =~= "URL must use HTTP or HTTPS protocol"@);
                }
                Err(TranscriptorError::UnsupportedUrl(m))
            }
        },
    }
}

/// The part of a path after its last `/` or `\`.
pub open spec fn file_name_of(s: Seq<char>) -> Seq<char>
    decreases s.len(),
{
    if s.len() == 0 {
        s
    } else if s.last() == '/' || s.last() == '\\' {
        Seq::empty()
    } else {
        file_name_of(s.drop_last()).push(s.last())
    }
}

/// The file name's last `.`-position, or nothing when it has no dot.
pub open spec fn last_dot_of(name: Seq<char>) -> Option<int> {
    if exists|i: int| 0 <= i < name.len() && name[i] == '.' {
        Some(choose|i: int|
            0 <= i < name.len() && name[i] == '.' && (forall|j: int|
                i < j < name.len() ==> name[j] != '.'))
    } else {
        None
    }
}

/// Whether a path looks like it names a file with an extension: its file
/// name has a dot after its first character.
pub open spec fn has_extension(s: Seq<char>) -> bool {
    match last_dot_of(file_name_of(s)) {
        Some(i) => i >= 1,
        None => false,
    }
}

proof fn lemma_file_name_at(s: Seq<char>, p: int)
    requires
        0 <= p <= s.len(),
        p > 0 ==> (s[p - 1] == '/' || s[p - 1] == '\\'),
        forall|j: int| p <= j < s.len() ==> (s[j] != '/' && s[j] != '\\'),
    ensures
        file_name_of(s) =~= s.subrange(p, s.len() as int),
    decreases s.len() - p,
{
    if p < s.len() {
        lemma_file_name_at(s.drop_last(), p);
        assert(s.drop_last().subrange(p, s.drop_last().len() as int) =~= s.subrange(p,
            s.len() - 1));
    } else {
        if s.len() > 0 {
            assert(s.last() == s[p - 1]);
        }
        assert(s.subrange(p, s.len() as int) =~= Seq::<char>::empty());
        if s.len() == 0 {
            assert(file_name_of(s) =~= Seq::<char>::empty());
        }
    }
}

/// Exec scan for the file-name part of a path.
pub fn file_name_exec(s: &str) -> (r: String)
    ensures
        r@ == file_name_of(s@),
{
    let len = s.unicode_len();
    let mut p: usize = 0;
    let mut i: usize = 0;
    while i < len
        invariant
            len == s@.len(),
            p <= i <= len,
            p > 0 ==> (s@[p - 1] == '/' || s@[p - 1] == '\\'),
            forall|j: int| p <= j < i ==> (s@[j] != '/' && s@[j] != '\\'),
        decreases len - i,
    {
        let c = s.get_char(i);
        if c == '/' || c == '\\' {
            p = i + 1;
        }
        i += 1;
    }
    proof {
        lemma_file_name_at(s@, p as int);
    }
    s.substring_char(p, len).to_owned()
}

/// The last-dot position of a name, scanned left to right.
pub fn last_dot_exec(name: &str) -> (r: Option<usize>)
    ensures
        r matches Some(i) ==> i < name@.len() && last_dot_of(name@) == Some(i as int),
        r is None ==> last_dot_of(name@) is None,
{
    let len = name.unicode_len();
    let mut dot: Option<usize> = None;
    let mut i: usize = 0;
    while i < len
        invariant
            len == name@.len(),
            i <= len,
            match dot {
                Some(d) => d < i && name@[d as int] == '.' && (forall|j: int|
                    d < j < i ==> name@[j] != '.'),
                None => forall|j: int| 0 <= j < i ==> name@[j] != '.',
            },
        decreases len - i,
    {
        if name.get_char(i) == '.' {
            dot = Some(i);
        }
        i += 1;
    }
    proof {
        match dot {
            Some(d) => {
                let di = d as int;
                assert(0 <= di < name@.len() && name@[di] == '.' && (forall|j: int|
                    di < j < name@.len() ==> name@[j] != '.'));
                let w = choose|w: int|
                    0 <= w < name@.len() && name@[w] == '.' && (forall|j: int|
                        w < j < name@.len() ==> name@[j] != '.');
                if w < di {
                    assert(name@[di] == '.');
                    assert(false);
                }
                if di < w {
                    assert(name@[w] == '.');
                    assert(false);
                }
            },
            None => {
                if exists|j: int| 0 <= j < name@.len() && name@[j] == '.' {
                    let j = choose|j: int| 0 <= j < name@.len() && name@[j] == '.';
                    assert(false);
                }
            },
        }
    }
    dot
}

/// Whether an input names a local file rather than a URL to fetch:
/// plainly not when it is an HTTP or HTTPS URL, plainly yes when it
/// exists on disk, and otherwise when it looks like a path — it has a
/// file extension, contains a path separator, or starts with `./` or
/// `.\`.  Whether the path exists is the caller's knowledge.
pub fn is_local_file_input(input: &str, exists_on_disk: bool) -> (r: bool)
    ensures
        r == ({
            if starts_with_seq(input@, "http://"@) || starts_with_seq(input@, "https://"@) {
                false
            } else if exists_on_disk {
                true
            } else {
                has_extension(input@) || crate::strutil::contains_char(input@, '/')
                    || crate::strutil::contains_char(input@, '\\') || starts_with_seq(
                    input@, "./"@) || starts_with_seq(input@, ".\\"@)
            }
        }),
{
    if str_starts_with(input, "http://") || str_starts_with(input, "https://") {
        return false;
    }
    if exists_on_disk {
        return true;
    }
    let name = file_name_exec(input);
    let has_ext = match last_dot_exec(name.as_str()) {
        Some(i) => i >= 1,
        None => false,
    };
    has_ext || crate::strutil::str_contains_char(input, '/')
        || crate::strutil::str_contains_char(input, '\\') || str_starts_with(input, "./")
        || str_starts_with(input, ".\\")
}

} // verus!
