//! What the library reads out of a URL.  The parsing itself is the `url`
//! crate's; the library sees only the scheme, the host and the normalized
//! serialization, as plain strings.

use vstd::prelude::*;

use crate::strutil::opt_str_view;

verus! {

/// The parts of a parsed URL the library looks at.
#[derive(Debug, Clone)]
pub struct UrlParts {
    pub scheme: String,
    pub host: Option<String>,
    pub path: String,
    pub serialized: String,
}

/// The scheme of `s` parsed as a URL, or nothing when `s` is not one.
pub uninterp spec fn url_scheme(s: Seq<char>) -> Option<Seq<char>>;

/// The host of `s` parsed as a URL, when it parses and has one.
pub uninterp spec fn url_host(s: Seq<char>) -> Option<Seq<char>>;

/// The path component of `s` parsed as a URL.
pub uninterp spec fn url_path(s: Seq<char>) -> Seq<char>;

/// The normalized serialization of `s` parsed as a URL.
pub uninterp spec fn url_serialized(s: Seq<char>) -> Seq<char>;

/// Relies on `url::Url::parse` and the accessors `scheme`, `host_str`,
/// `path` and `as_str`: parsing is a pure function of the text; on
/// success `scheme()` is the URL's scheme, `host_str()` its host if it
/// has one, `path()` its path, and `as_str()` its normalized
/// serialization.
#[verifier::external_body]
pub(crate) fn parse_url(s: &str) -> (r: Option<UrlParts>)
    ensures
        r is Some <==> url_scheme(s@) is Some,
        r matches Some(p) ==> p.scheme@ == url_scheme(s@).unwrap() && opt_str_view(
            &p.host) == url_host(s@) && p.path@ == url_path(s@) && p.serialized@
            == url_serialized(s@),
{
    match url::Url::parse(s) {
        Ok(u) => Some(
            UrlParts {
                scheme: u.scheme().to_string(),
                host: u.host_str().map(|h| h.to_string()),
                path: u.path().to_string(),
                serialized: u.as_str().to_string(),
            },
        ),
        Err(_) => None,
    }
}

/// Whether a parsed scheme is plain HTTP or HTTPS.
pub open spec fn is_web_scheme(sch: Seq<char>) -> bool {
    sch == "http"@ || sch == "https"@
}

pub fn is_web_scheme_exec(sch: &str) -> (r: bool)
    ensures
        r == is_web_scheme(sch@),
{
    crate::strutil::str_eq(sch, "http") || crate::strutil::str_eq(sch, "https")
}

} // verus!
