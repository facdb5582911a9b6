//! Small formatting and normalization helpers: human-readable sizes and
//! durations, filename sanitizing, language-code normalization, and the
//! URL conveniences built on [`crate::urlinfo`].

use vstd::prelude::*;

use crate::numeric::dec_str;
use crate::strutil::{
    lower_seq, starts_with_seq, str_eq, str_starts_with, to_ascii_lowercase,
    trim_spaces, trim_spaces_exec,
};
use crate::urlinfo::{
    is_web_scheme, is_web_scheme_exec, parse_url, url_host, url_scheme, url_serialized,
};
use crate::TranscriptorError;

verus! {

/// Which 1024-based unit a byte count is shown in: 0 bytes, 1 KB, 2 MB,
/// 3 GB, 4 TB.
pub open spec fn unit_index(bytes: u64) -> int {
    if bytes < 1024 {
        0
    } else if bytes < 1048576 {
        1
    } else if bytes < 1073741824 {
        2
    } else if bytes < 1099511627776 {
        3
    } else {
        4
    }
}

pub open spec fn unit_divisor(i: int) -> int {
    if i == 1 {
        1024
    } else if i == 2 {
        1048576
    } else if i == 3 {
        1073741824
    } else {
        1099511627776
    }
}

pub open spec fn unit_suffix(i: int) -> Seq<char> {
    if i == 1 {
        " KB"@
    } else if i == 2 {
        " MB"@
    } else if i == 3 {
        " GB"@
    } else {
        " TB"@
    }
}

/// The size in tenths of the chosen unit, rounded to nearest with ties
/// to even — the rounding a one-decimal float display uses.
pub open spec fn rounded_tenths(bytes: u64) -> int {
    let den = unit_divisor(unit_index(bytes));
    let q = (bytes * 10) / den;
    let r = (bytes * 10) % den;
    if 2 * r > den {
        q + 1
    } else if 2 * r < den {
        q
    } else if q % 2 == 1 {
        q + 1
    } else {
        q
    }
}

/// Human-readable byte count: whole bytes below 1 KB, one decimal place
/// above.
pub open spec fn file_size_str(bytes: u64) -> Seq<char> {
    if bytes == 0 {
        "0 B"@
    } else if unit_index(bytes) == 0 {
        dec_str(bytes as int) + " B"@
    } else {
        let t = rounded_tenths(bytes);
        dec_str(t / 10) + "."@ + dec_str(t % 10) + unit_suffix(unit_index(bytes))
    }
}

/// Format a byte count for people, exactly as [`file_size_str`] says.
pub fn format_file_size(bytes: u64) -> (r: String)
    ensures
        r@ == file_size_str(bytes),
{
    if bytes == 0 {
        let mut out = String::new();
        out.append("0 B");
        proof {
            assert(Seq::<char>::empty() + "0 B"@ =~= "0 B"@);
        }
        return out;
    }
    if bytes < 1024 {
        let mut out = String::new();
        crate::numeric::push_u64(&mut out, bytes);
        out.append(" B");
        proof {
            assert(Seq::<char>::empty() + dec_str(bytes as int) + " B"@ =~= dec_str(
                bytes as int) + " B"@);
        }
        return out;
    }
    let den: u64 = if bytes < 1048576 {
        1024
    } else if bytes < 1073741824 {
        1048576
    } else if bytes < 1099511627776 {
        1073741824
    } else {
        1099511627776
    };
    let num: u128 = (bytes as u128) * 10;
    let q: u64 = (num / (den as u128)) as u64;
    let r: u64 = (num % (den as u128)) as u64;
    proof {
        assert((bytes as int) * 10 <= u64::MAX as int * 10) by (nonlinear_arith)
            requires
                bytes <= u64::MAX,
        ;
        assert(q == (bytes * 10) / (den as int) && r == (bytes * 10) % (den as int));
        assert((bytes * 10) / (den as int) <= bytes * 10) by (nonlinear_arith)
            requires
                den >= 1024,
                bytes >= 0,
        ;
    }
    let tenths: u64 = if 2 * (r as u128) > den as u128 {
        q + 1
    } else if 2 * (r as u128) < den as u128 {
        q
    } else if q % 2 == 1 {
        q + 1
    } else {
        q
    };
    proof {
        assert(tenths == rounded_tenths(bytes));
    }
    let mut out = String::new();
    crate::numeric::push_u64(&mut out, tenths / 10);
    crate::strutil::push_char(&mut out, '.');
    crate::numeric::push_u64(&mut out, tenths % 10);
    if bytes < 1048576 {
        out.append(" KB");
    } else if bytes < 1073741824 {
        out.append(" MB");
    } else if bytes < 1099511627776 {
        out.append(" GB");
    } else {
        out.append(" TB");
    }
    proof {
        assert(dec_str((tenths / 10) as int).push('.') =~= dec_str((tenths / 10) as int)
            + "."@) by {
            reveal_strlit(".");
        }
        assert(out@ =~= file_size_str(bytes));
    }
    out
}

/// Human-readable duration from whole seconds: "3s", "2m 3s", "1h 2m 3s".
pub open spec fn duration_str(total: u64) -> Seq<char> {
    let h = total / 3600;
    let m = (total % 3600) / 60;
    let s = total % 60;
    if h > 0 {
        dec_str(h as int) + "h "@ + dec_str(m as int) + "m "@ + dec_str(s as int) + "s"@
    } else if m > 0 {
        dec_str(m as int) + "m "@ + dec_str(s as int) + "s"@
    } else {
        dec_str(s as int) + "s"@
    }
}

/// Format a duration of whole seconds, exactly as [`duration_str`] says.
pub fn format_duration(seconds: u64) -> (r: String)
    ensures
        r@ == duration_str(seconds),
{
    let hours = seconds / 3600;
    let minutes = (seconds % 3600) / 60;
    let secs = seconds % 60;
    let mut out = String::new();
    if hours > 0 {
        crate::numeric::push_u64(&mut out, hours);
        out.append("h ");
        crate::numeric::push_u64(&mut out, minutes);
        out.append("m ");
        crate::numeric::push_u64(&mut out, secs);
        out.append("s");
    } else if minutes > 0 {
        crate::numeric::push_u64(&mut out, minutes);
        out.append("m ");
        crate::numeric::push_u64(&mut out, secs);
        out.append("s");
    } else {
        crate::numeric::push_u64(&mut out, secs);
        out.append("s");
    }
    proof {
        assert(out@ =~= duration_str(seconds));
    }
    out
}

/// Whether a character passes through [`sanitize_filename`] unchanged.
pub uninterp spec fn char_is_alphanumeric(c: char) -> bool;

/// Relies on `char::is_alphanumeric`, std's Unicode alphanumeric test,
/// whose result depends on the character alone.
pub assume_specification[ char::is_alphanumeric ](c: char) -> (r: bool)
    ensures
        r == char_is_alphanumeric(c),
;

pub open spec fn keep_in_filename(c: char) -> bool {
    char_is_alphanumeric(c) || c == ' ' || c == '-' || c == '_' || c == '.'
}

/// A filename made safe: alphanumerics, spaces, hyphens, underscores and
/// dots survive, everything else becomes an underscore, and surrounding
/// spaces are trimmed.
pub open spec fn sanitized_filename(s: Seq<char>) -> Seq<char> {
    trim_spaces(s.map_values(|c: char| if keep_in_filename(c) {
        c
    } else {
        '_'
    }))
}

/// Sanitize a filename for safe filesystem use, exactly as
/// [`sanitized_filename`] says.
pub fn sanitize_filename(filename: &str) -> (r: String)
    ensures
        r@ == sanitized_filename(filename@),
{
    let len = filename.unicode_len();
    let mut mapped = String::new();
    let mut i: usize = 0;
    while i < len
        invariant
            len == filename@.len(),
            i <= len,
            mapped@ == filename@.subrange(0, i as int).map_values(|c: char|
                if keep_in_filename(c) {
                    c
                } else {
                    '_'
                }),
        decreases len - i,
    {
        let c = filename.get_char(i);
        let kept = if c.is_alphanumeric() {
            true
        } else {
            c == ' ' || c == '-' || c == '_' || c == '.'
        };
        crate::strutil::push_char(&mut mapped, if kept { c } else { '_' });
        proof {
            assert(mapped@ =~= filename@.subrange(0, i + 1).map_values(|c: char|
                if keep_in_filename(c) {
                    c
                } else {
                    '_'
                }));
        }
        i += 1;
    }
    proof {
        assert(filename@.subrange(0, filename@.len() as int) =~= filename@);
    }
    trim_spaces_exec(mapped.as_str())
}

/// The normalized form of a language hint: common names and bare codes
/// map to a full locale code (matched ASCII case-insensitively); anything
/// unrecognized passes through unchanged.
pub open spec fn normalized_language(lang: Seq<char>) -> Seq<char> {
    let l = lower_seq(lang);
    if l == "en"@ || l == "english"@ {
        "en-US"@
    } else if l == "es"@ || l == "spanish"@ {
        "es-ES"@
    } else if l == "fr"@ || l == "french"@ {
        "fr-FR"@
    } else if l == "de"@ || l == "german"@ {
        "de-DE"@
    } else if l == "it"@ || l == "italian"@ {
        "it-IT"@
    } else if l == "pt"@ || l == "portuguese"@ {
        "pt-BR"@
    } else if l == "ja"@ || l == "japanese"@ {
        "ja-JP"@
    } else if l == "ko"@ || l == "korean"@ {
        "ko-KR"@
    } else if l == "zh"@ || l == "chinese"@ {
        "zh-CN"@
    } else if l == "ar"@ || l == "arabic"@ {
        "ar-SA"@
    } else if l == "hi"@ || l == "hindi"@ {
        "hi-IN"@
    } else if l == "ru"@ || l == "russian"@ {
        "ru-RU"@
    } else {
        lang
    }
}

/// Normalize a language hint, exactly as [`normalized_language`] says.
pub fn normalize_language_code(lang: &str) -> (r: String)
    ensures
        r@ == normalized_language(lang@),
{
    let lower = to_ascii_lowercase(lang);
    let l = lower.as_str();
    if str_eq(l, "en") || str_eq(l, "english") {
        "en-US".to_owned()
    } else if str_eq(l, "es") || str_eq(l, "spanish") {
        "es-ES".to_owned()
    } else if str_eq(l, "fr") || str_eq(l, "french") {
        "fr-FR".to_owned()
    } else if str_eq(l, "de") || str_eq(l, "german") {
        "de-DE".to_owned()
    } else if str_eq(l, "it") || str_eq(l, "italian") {
        "it-IT".to_owned()
    } else if str_eq(l, "pt") || str_eq(l, "portuguese") {
        "pt-BR".to_owned()
    } else if str_eq(l, "ja") || str_eq(l, "japanese") {
        "ja-JP".to_owned()
    } else if str_eq(l, "ko") || str_eq(l, "korean") {
        "ko-KR".to_owned()
    } else if str_eq(l, "zh") || str_eq(l, "chinese") {
        "zh-CN".to_owned()
    } else if str_eq(l, "ar") || str_eq(l, "arabic") {
        "ar-SA".to_owned()
    } else if str_eq(l, "hi") || str_eq(l, "hindi") {
        "hi-IN".to_owned()
    } else if str_eq(l, "ru") || str_eq(l, "russian") {
        "ru-RU".to_owned()
    } else {
        lang.to_owned()
    }
}

/// Check that a string is an HTTP or HTTPS URL and return its normalized
/// serialization; reject anything unparseable or of another scheme.
pub fn validate_and_normalize_url(url: &str) -> (r: Result<String, TranscriptorError>)
    ensures
        url_scheme(url@) is None ==> (r matches Err(TranscriptorError::UnsupportedUrl(m))
            && m@ == "Invalid URL format: "@ + url@),
        (url_scheme(url@) matches Some(sch) && !is_web_scheme(sch)) ==> (r matches Err(
            TranscriptorError::UnsupportedUrl(m)) && m@
            == "URL must use HTTP or HTTPS protocol"@),
        (url_scheme(url@) matches Some(sch) && is_web_scheme(sch)) ==> (r matches Ok(u)
            && u@ == url_serialized(url@)),
{
    match parse_url(url) {
        None => {
            let mut m = String::new();
            m.append("Invalid URL format: ");
            m.append(url);
            proof {
                assert(Seq::<char>::empty() + "Invalid URL format: "@ + url@
                    =~= "Invalid URL format: "@ + url@);
            }
            Err(TranscriptorError::UnsupportedUrl(m))
        },
        Some(parts) => {
            if is_web_scheme_exec(parts.scheme.as_str()) {
                Ok(parts.serialized)
            } else {
                let mut m = String::new();
                m.append("URL must use HTTP or HTTPS protocol");
                proof {
                    assert(Seq::<char>::empty() + "URL must use HTTP or HTTPS protocol"@
                        =~= "URL must use HTTP or HTTPS protocol"@);
                }
                Err(TranscriptorError::UnsupportedUrl(m))
            }
        },
    }
}

/// A host with any leading "www." removed.
pub open spec fn strip_www(h: Seq<char>) -> Seq<char> {
    if starts_with_seq(h, "www."@) {
        h.subrange("www."@.len() as int, h.len() as int)
    } else {
        h
    }
}

/// The display domain of a URL: its host, without a leading "www.";
/// nothing when the text is no URL or has no host.
pub fn extract_domain(url: &str) -> (r: Option<String>)
    ensures
        r is Some <==> (url_scheme(url@) is Some && url_host(url@) is Some),
        r matches Some(d) ==> d@ == strip_www(url_host(url@).unwrap()),
{
    match parse_url(url) {
        None => None,
        Some(parts) => match parts.host {
            None => None,
            Some(host) => {
                let h = host.as_str();
                if str_starts_with(h, "www.") {
                    let hlen = h.unicode_len();
                    proof {
                        reveal_strlit("www.");
                    }
                    Some(h.substring_char(4, hlen).to_owned())
                } else {
                    Some(h.to_owned())
                }
            },
        },
    }
}

/// Relies on chrono's `Utc::now` and `DateTime::format` with
/// "%Y%m%d_%H%M%S": a clock reading, formatted; nothing is promised of a
/// clock reading.
#[verifier::external_body]
fn now_compact_timestamp() -> String {
    chrono::Utc::now().format("%Y%m%d_%H%M%S").to_string()
}

/// Relies on uuid's `Uuid::new_v4` and its hyphenated `Display` form,
/// which is always 36 ASCII characters; the value itself is random.
#[verifier::external_body]
fn new_uuid_string() -> (r: String)
    ensures
        r@.len() == 36,
{
    uuid::Uuid::new_v4().to_string()
}

/// A fresh filename "transcriptor_<base>_<timestamp>_<random8>.<ext>",
/// with the base sanitized.  The timestamp and the eight random
/// characters come from the clock and the random generator, so only the
/// shape is promised.
pub fn generate_unique_filename(base_name: &str, extension: &str) -> (r: String)
    ensures
        exists|ts: Seq<char>, rd: Seq<char>|
            rd.len() == 8 && r@ == #[trigger] filename_shape(sanitized_filename(
                base_name@), ts, rd, extension@),
{
    let timestamp = now_compact_timestamp();
    let uuid = new_uuid_string();
    let random_suffix = uuid.as_str().substring_char(0, 8);
    let mut out = String::new();
    out.append("transcriptor_");
    let sanitized = sanitize_filename(base_name);
    out.append(sanitized.as_str());
    out.append("_");
    out.append(timestamp.as_str());
    out.append("_");
    out.append(random_suffix);
    out.append(".");
    out.append(extension);
    proof {
        let ts = timestamp@;
        let rd = uuid@.subrange(0, 8);
        assert(out@ =~= filename_shape(sanitized_filename(base_name@), ts, rd,
            extension@));
    }
    out
}

/// The shape a generated filename always has.
pub open spec fn filename_shape(base: Seq<char>, ts: Seq<char>, rd: Seq<char>,
    ext: Seq<char>) -> Seq<char> {
    "transcriptor_"@ + base + "_"@ + ts + "_"@ + rd + "."@ + ext
}

} // verus!
