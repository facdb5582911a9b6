//! Local files: deciding the format from the extension and planning
//! whether a file can be handed over as it is or must be converted.
//! Probing and converting the file are the caller's; the decisions stand
//! here.

use vstd::prelude::*;

use crate::extractors::{
    file_name_exec, file_name_of, last_dot_exec, last_dot_of, AudioFormat, AudioInfo,
};
use crate::strutil::{opt_str_view, str_eq};

verus! {

pub struct LocalFileExtractor;

/// The extension named at the end of a path, matched exactly (a dot in
/// first position of the file name does not count).
pub open spec fn path_extension(s: Seq<char>) -> Option<Seq<char>> {
    let name = file_name_of(s);
    match last_dot_of(name) {
        Some(i) => if i >= 1 {
            Some(name.subrange(i + 1, name.len() as int))
        } else {
            None
        },
        None => None,
    }
}

/// The format a local path's extension names; video containers and
/// unknown extensions fall back to MP3, which the file will be converted
/// to.
pub open spec fn local_format(s: Seq<char>) -> AudioFormat {
    match path_extension(s) {
        Some(e) => if e == "mp3"@ {
            AudioFormat::Mp3
        } else if e == "m4a"@ || e == "aac"@ {
            AudioFormat::M4a
        } else if e == "wav"@ {
            AudioFormat::Wav
        } else if e == "flac"@ {
            AudioFormat::Flac
        } else if e == "ogg"@ {
            AudioFormat::Ogg
        } else {
            AudioFormat::Mp3
        },
        None => AudioFormat::Mp3,
    }
}

/// Whether the extension names a pure audio container the pipeline knows.
pub open spec fn is_audio_extension(s: Seq<char>) -> bool {
    match path_extension(s) {
        Some(e) => e == "mp3"@ || e == "m4a"@ || e == "aac"@ || e == "wav"@ || e
            == "flac"@ || e == "ogg"@,
        None => false,
    }
}

fn path_extension_exec(path: &str) -> (r: Option<String>)
    ensures
        opt_str_view(&r) == path_extension(path@),
{
    let name = file_name_exec(path);
    match last_dot_exec(name.as_str()) {
        Some(i) => {
            if i >= 1 {
                let nlen = name.as_str().unicode_len();
                Some(name.as_str().substring_char(i + 1, nlen).to_owned())
            } else {
                None
            }
        },
        None => None,
    }
}

impl LocalFileExtractor {
    pub fn new() -> (r: Self) {
        LocalFileExtractor
    }

    /// The audio format a local path's extension names, as
    /// [`local_format`] says.
    pub fn get_audio_format(&self, path: &str) -> (r: AudioFormat)
        ensures
            r == local_format(path@),
    {
        match path_extension_exec(path) {
            Some(ext) => {
                let e = ext.as_str();
                if str_eq(e, "mp3") {
                    AudioFormat::Mp3
                } else if str_eq(e, "m4a") || str_eq(e, "aac") {
                    AudioFormat::M4a
                } else if str_eq(e, "wav") {
                    AudioFormat::Wav
                } else if str_eq(e, "flac") {
                    AudioFormat::Flac
                } else if str_eq(e, "ogg") {
                    AudioFormat::Ogg
                } else {
                    AudioFormat::Mp3
                }
            },
            None => AudioFormat::Mp3,
        }
    }

    /// How a local file reaches the transcription service: MP3 and M4A
    /// audio is copied as it is; every other audio format, video, or
    /// unknown extension is converted to MP3.  Returns the format the
    /// prepared file will have and whether a conversion is needed.
    pub fn prepare_audio_plan(&self, source_path: &str) -> (r: (AudioFormat, bool))
        ensures
            ({
                let fmt = local_format(source_path@);
                if is_audio_extension(source_path@) && (fmt == AudioFormat::Mp3 || fmt
                    == AudioFormat::M4a) {
                    r == (fmt, false)
                } else {
                    r == (AudioFormat::Mp3, true)
                }
            }),
    {
        let fmt = self.get_audio_format(source_path);
        let is_audio = match path_extension_exec(source_path) {
            Some(ext) => {
                let e = ext.as_str();
                str_eq(e, "mp3") || str_eq(e, "m4a") || str_eq(e, "aac") || str_eq(e,
                    "wav") || str_eq(e, "flac") || str_eq(e, "ogg")
            },
            None => false,
        };
        if is_audio && (matches!(fmt, AudioFormat::Mp3) || matches!(fmt, AudioFormat::M4a)) {
            (fmt, false)
        } else {
            (AudioFormat::Mp3, true)
        }
    }

    /// Assemble what is known of a local file once the caller has probed
    /// it: the download locator carries the absolute path under a
    /// "local-file://" marker, the title is the file name without its
    /// extension (or "Local File"), and the sample rate is the 44.1 kHz
    /// everything is normalized to.
    pub fn local_audio_info(&self, path: &str, absolute_path: &str, duration_secs:
        Option<u64>, file_size: Option<u64>) -> (info: AudioInfo)
        ensures
            info.download_url@ == "local-file://"@ + absolute_path@,
            info.duration_secs == duration_secs,
            (info.title matches Some(t) && t@ == local_title(path@)),
            info.format == local_format(path@),
            info.sample_rate == Some(44100u32),
            info.file_size == file_size,
            info.original_url@ == path@,
    {
        let mut download_url = String::new();
        download_url.append("local-file://");
        download_url.append(absolute_path);
        proof {
            assert(Seq::<char>::empty() + "local-file://"@ + absolute_path@
                =~= "local-file://"@ + absolute_path@);
        }
        let name = file_name_exec(path);
        let stem: String = match last_dot_exec(name.as_str()) {
            Some(i) => {
                if i >= 1 {
                    name.as_str().substring_char(0, i).to_owned()
                } else {
                    name
                }
            },
            None => name,
        };
        let title: String = if stem.as_str().unicode_len() == 0 {
            let mut t = String::new();
            t.append("Local File");
            proof {
                assert(Seq::<char>::empty() + "Local File"@ =~= "Local File"@);
            }
            t
        } else {
            stem
        };
        AudioInfo {
            download_url,
            duration_secs,
            title: Some(title),
            format: self.get_audio_format(path),
            sample_rate: Some(44100),
            file_size,
            original_url: path.to_owned(),
        }
    }
}

/// The display title of a local path: its file name without the
/// extension, or "Local File" when that leaves nothing.
pub open spec fn local_title(s: Seq<char>) -> Seq<char> {
    let name = file_name_of(s);
    let stem = match last_dot_of(name) {
        Some(i) => if i >= 1 {
            name.subrange(0, i)
        } else {
            name
        },
        None => name,
    };
    if stem.len() == 0 {
        "Local File"@
    } else {
        stem
    }
}

} // verus!
