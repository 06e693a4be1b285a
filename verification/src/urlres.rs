//! URL resolution.
//!
//! URLs travel through the library as their serialized `String` form. Parsing
//! and joining follow the URL standard and are delegated to the `url` crate
//! behind trusted wrappers; their results are named by uninterpreted spec
//! functions, so every caller's contract states exactly which resolution it
//! performed. The branching rules (absolute, protocol-relative, relative) are
//! verified here.

use vstd::prelude::*;

use crate::strutil::{chars_of, has_prefix, match_at, spec_trim, string_from_chars, trim_vec};

verus! {

/// The normalized serialization of `s` parsed as an absolute URL, or `None`
/// when it does not parse.
pub uninterp spec fn url_parse_norm(s: Seq<char>) -> Option<Seq<char>>;

/// The normalized serialization of `rel` resolved against the absolute URL
/// `base`, or `None` when base or the resolution does not parse.
pub uninterp spec fn url_join_norm(base: Seq<char>, rel: Seq<char>) -> Option<Seq<char>>;

/// The scheme of the URL `u`, or `None` when `u` does not parse.
pub uninterp spec fn url_scheme_of(u: Seq<char>) -> Option<Seq<char>>;

/// The host of the URL `u`, or `None` when `u` does not parse or has none.
pub uninterp spec fn url_host_of(u: Seq<char>) -> Option<Seq<char>>;

/// The path of the URL `u`, or `None` when `u` does not parse.
pub uninterp spec fn url_path_of(u: Seq<char>) -> Option<Seq<char>>;

/// The fragment of the URL `u`, or `None` when `u` does not parse or has none.
pub uninterp spec fn url_fragment_of(u: Seq<char>) -> Option<Seq<char>>;

/// Relies on `url::Url::parse` and `Url::as_str`: parses an absolute URL and
/// returns its normalized serialization; the result depends on the input
/// string alone.
#[verifier::external_body]
pub(crate) fn url_parse(s: &str) -> (r: Option<String>)
    ensures
        (r is Some) == (url_parse_norm(s@) is Some),
        r matches Some(u) ==> Some(u@) == url_parse_norm(s@),
{
    match url::Url::parse(s) {
        Ok(u) => Some(String::from(u.as_str())),
        Err(_) => None,
    }
}

/// Relies on `url::Url::parse` and `Url::join`: resolves `rel` against the
/// absolute URL `base` by the URL standard; the result depends on the
/// arguments alone.
#[verifier::external_body]
pub(crate) fn url_join(base: &str, rel: &str) -> (r: Option<String>)
    ensures
        (r is Some) == (url_join_norm(base@, rel@) is Some),
        r matches Some(u) ==> Some(u@) == url_join_norm(base@, rel@),
{
    match url::Url::parse(base) {
        Ok(b) => match b.join(rel) {
            Ok(u) => Some(String::from(u.as_str())),
            Err(_) => None,
        },
        Err(_) => None,
    }
}

/// Relies on `url::Url::parse` and `Url::scheme`.
#[verifier::external_body]
pub(crate) fn url_scheme(u: &str) -> (r: Option<String>)
    ensures
        (r is Some) == (url_scheme_of(u@) is Some),
        r matches Some(s) ==> Some(s@) == url_scheme_of(u@),
{
    match url::Url::parse(u) {
        Ok(p) => Some(String::from(p.scheme())),
        Err(_) => None,
    }
}

/// Relies on `url::Url::parse` and `Url::host_str`.
#[verifier::external_body]
pub(crate) fn url_host(u: &str) -> (r: Option<String>)
    ensures
        (r is Some) == (url_host_of(u@) is Some),
        r matches Some(s) ==> Some(s@) == url_host_of(u@),
{
    match url::Url::parse(u) {
        Ok(p) => p.host_str().map(String::from),
        Err(_) => None,
    }
}

/// Relies on `url::Url::parse` and `Url::path`.
#[verifier::external_body]
pub(crate) fn url_path(u: &str) -> (r: Option<String>)
    ensures
        (r is Some) == (url_path_of(u@) is Some),
        r matches Some(s) ==> Some(s@) == url_path_of(u@),
{
    match url::Url::parse(u) {
        Ok(p) => Some(String::from(p.path())),
        Err(_) => None,
    }
}

/// Relies on `url::Url::parse` and `Url::fragment`.
#[verifier::external_body]
pub(crate) fn url_fragment(u: &str) -> (r: Option<String>)
    ensures
        (r is Some) == (url_fragment_of(u@) is Some),
        r matches Some(s) ==> Some(s@) == url_fragment_of(u@),
{
    match url::Url::parse(u) {
        Ok(p) => p.fragment().map(String::from),
        Err(_) => None,
    }
}

/// The site's base URL, parsed once: its serialization plus the components
/// that the rewriting rules read.
pub struct BaseUrl {
    pub full: String,
    pub scheme: String,
    pub host: Option<String>,
}

impl BaseUrl {
    /// The components agree with the serialized URL.
    pub open spec fn wf(self) -> bool {
        &&& url_parse_norm(self.full@) == Some(self.full@)
        &&& Some(self.scheme@) == url_scheme_of(self.full@)
        &&& (self.host is Some) == (url_host_of(self.full@) is Some)
        &&& (self.host matches Some(h) ==> Some(h@) == url_host_of(self.full@))
    }

    /// Parses and decomposes a base URL handed in by the caller. It succeeds
    /// exactly when the string parses, its normalized serialization reparses
    /// to itself, and a scheme can be read off — which the url crate gives
    /// every parse result, so in practice: exactly when `s` parses.
    pub fn parse(s: &str) -> (r: Option<BaseUrl>)
        ensures
            r matches Some(b) ==> b.wf() && Some(b.full@) == url_parse_norm(s@),
            ({
                let p = url_parse_norm(s@);
                (r is Some) == (p matches Some(f) && url_parse_norm(f) == Some(f)
                    && url_scheme_of(f) is Some)
            }),
    {
        let full = match url_parse(s) {
            Some(f) => f,
            None => {
                return None;
            },
        };
        // Reparsing a normalized serialization must give it back; if the url
        // crate ever disagreed, refuse the base rather than trust it.
        let norm = match url_parse(full.as_str()) {
            Some(n) => n,
            None => {
                return None;
            },
        };
        if !norm.eq(&full) {
            return None;
        }
        let scheme = match url_scheme(full.as_str()) {
            Some(sc) => sc,
            None => {
                return None;
            },
        };
        let host = url_host(full.as_str());
        Some(BaseUrl { full, scheme, host })
    }
}

/// How a raw reference resolves against a base URL: absolute references are
/// parsed as they stand, protocol-relative ones inherit the base's scheme,
/// and everything else is joined onto the base.
pub open spec fn spec_resolve_any(base: BaseUrl, raw: Seq<char>) -> Option<Seq<char>> {
    let r = spec_trim(raw);
    if has_prefix(r, "http://"@) || has_prefix(r, "https://"@) {
        url_parse_norm(r)
    } else if has_prefix(r, "//"@) {
        url_parse_norm(base.scheme@ + seq![':'] + r)
    } else {
        url_join_norm(base.full@, r)
    }
}

/// Resolves a raw URL reference against the base URL.
pub fn resolve_any_url(base: &BaseUrl, raw: &str) -> (r: Option<String>)
    ensures
        (r is Some) == (spec_resolve_any(*base, raw@) is Some),
        r matches Some(u) ==> Some(u@) == spec_resolve_any(*base, raw@),
{
    let v = chars_of(raw);
    let t = trim_vec(&v);
    proof {
        crate::strutil::lemma_trim_idempotent(raw@);
    }
    resolve_any_vec(base, &t)
}

/// As `resolve_any_url`, for an already-trimmed character vector.
pub fn resolve_any_vec(base: &BaseUrl, t: &Vec<char>) -> (r: Option<String>)
    requires
        t@ == spec_trim(t@),
    ensures
        (r is Some) == (spec_resolve_any(*base, t@) is Some),
        r matches Some(u) ==> Some(u@) == spec_resolve_any(*base, t@),
{
    let http = chars_of("http://");
    let https = chars_of("https://");
    let proto_rel = chars_of("//");
    let ts = string_from_chars(t);
    if match_at(t, &http, 0) || match_at(t, &https, 0) {
        url_parse(ts.as_str())
    } else if match_at(t, &proto_rel, 0) {
        let mut u = base.scheme.clone();
        u.append(":");
        u.append(ts.as_str());
        proof {
            reveal_strlit(":");
            assert(u@ =~= base.scheme@ + seq![':'] + t@);
        }
        url_parse(u.as_str())
    } else {
        url_join(base.full.as_str(), ts.as_str())
    }
}

} // verus!
