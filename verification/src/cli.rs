//! The output formats a caller can ask for.  Argument parsing itself is
//! plumbing and stays with the binary; the format names are fixed here.

use vstd::prelude::*;

verus! {

/// The renderings a finished transcription can be written in.
#[derive(Debug, Clone, Copy, PartialEq, Eq, Structural)]
pub enum OutputFormat {
    /// Plain text.
    Text,
    /// JSON with timestamps.
    Json,
    /// SRT subtitle format.
    Srt,
    /// WebVTT format.
    Vtt,
    /// CSV format.
    Csv,
}

pub open spec fn output_format_name(f: OutputFormat) -> Seq<char> {
    match f {
        OutputFormat::Text => "text"@,
        OutputFormat::Json => "json"@,
        OutputFormat::Srt => "srt"@,
        OutputFormat::Vtt => "vtt"@,
        OutputFormat::Csv => "csv"@,
    }
}

impl OutputFormat {
    /// The format's name, as it appears on the command line.
    pub fn as_str(&self) -> (r: &'static str)
        ensures
            r@ == output_format_name(*self),
    {
        match self {
            OutputFormat::Text => "text",
            OutputFormat::Json => "json",
            OutputFormat::Srt => "srt",
            OutputFormat::Vtt => "vtt",
            OutputFormat::Csv => "csv",
        }
    }
}

} // verus!
