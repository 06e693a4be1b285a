//! MIME type and file-extension inference for fetched asset bytes.
//!
//! Precedence: the `Content-Type` hint mapped through a known-MIME table,
//! then magic-byte sniffing, then (for remote sources) the URL's path
//! extension, then the octet-stream default.

use vstd::prelude::*;

use crate::assets::AssetKind;
use crate::strutil::{
    after_last_char, chars_of, find_after_last, find_char_from, lemma_find_char_at, lower,
    spec_trim, subvec, to_lower_vec, trim_vec, vecs_eq,
};

verus! {

/// A mime/extension pair, as character sequences.
pub open spec fn pair(m: Seq<char>, e: Seq<char>) -> (Seq<char>, Seq<char>) {
    (m, e)
}

/// The known-MIME table: what a trusted `Content-Type` value maps to.
/// `application/octet-stream` counts as WOFF2 for font requests, since font
/// CDNs commonly mislabel that type.
pub open spec fn spec_mime_to_ext(mime: Seq<char>, kind: AssetKind) -> Option<
    (Seq<char>, Seq<char>),
> {
    if mime == "image/png"@ {
        Some(pair("image/png"@, "png"@))
    } else if mime == "image/jpeg"@ {
        Some(pair("image/jpeg"@, "jpg"@))
    } else if mime == "image/gif"@ {
        Some(pair("image/gif"@, "gif"@))
    } else if mime == "image/webp"@ {
        Some(pair("image/webp"@, "webp"@))
    } else if mime == "image/svg+xml"@ {
        Some(pair("image/svg+xml"@, "svg"@))
    } else if mime == "font/woff2"@ {
        Some(pair("font/woff2"@, "woff2"@))
    } else if mime == "font/woff"@ {
        Some(pair("font/woff"@, "woff"@))
    } else if mime == "application/font-woff2"@ {
        Some(pair("font/woff2"@, "woff2"@))
    } else if mime == "application/font-woff"@ {
        Some(pair("font/woff"@, "woff"@))
    } else if mime == "application/octet-stream"@ && kind is Font {
        Some(pair("font/woff2"@, "woff2"@))
    } else {
        None
    }
}

/// Looks a trimmed `Content-Type` value up in the known-MIME table.
pub fn mime_to_ext(mime: &Vec<char>, kind: AssetKind) -> (r: Option<(String, String)>)
    ensures
        (r is Some) == (spec_mime_to_ext(mime@, kind) is Some),
        r matches Some(p) ==> Some((p.0@, p.1@)) == spec_mime_to_ext(mime@, kind),
{
    let png = chars_of("image/png");
    let jpeg = chars_of("image/jpeg");
    let gif = chars_of("image/gif");
    let webp = chars_of("image/webp");
    let svg = chars_of("image/svg+xml");
    let woff2 = chars_of("font/woff2");
    let woff = chars_of("font/woff");
    let app_woff2 = chars_of("application/font-woff2");
    let app_woff = chars_of("application/font-woff");
    let octet = chars_of("application/octet-stream");
    if vecs_eq(mime, &png) {
        Some((String::from_str("image/png"), String::from_str("png")))
    } else if vecs_eq(mime, &jpeg) {
        Some((String::from_str("image/jpeg"), String::from_str("jpg")))
    } else if vecs_eq(mime, &gif) {
        Some((String::from_str("image/gif"), String::from_str("gif")))
    } else if vecs_eq(mime, &webp) {
        Some((String::from_str("image/webp"), String::from_str("webp")))
    } else if vecs_eq(mime, &svg) {
        Some((String::from_str("image/svg+xml"), String::from_str("svg")))
    } else if vecs_eq(mime, &woff2) {
        Some((String::from_str("font/woff2"), String::from_str("woff2")))
    } else if vecs_eq(mime, &woff) {
        Some((String::from_str("font/woff"), String::from_str("woff")))
    } else if vecs_eq(mime, &app_woff2) {
        Some((String::from_str("font/woff2"), String::from_str("woff2")))
    } else if vecs_eq(mime, &app_woff) {
        Some((String::from_str("font/woff"), String::from_str("woff")))
    } else if vecs_eq(mime, &octet) && matches!(kind, AssetKind::Font) {
        Some((String::from_str("font/woff2"), String::from_str("woff2")))
    } else {
        None
    }
}

/// Magic prefixes, least index first.
pub open spec fn png_magic() -> Seq<u8> {
    seq![0x89u8, 0x50u8, 0x4eu8, 0x47u8, 0x0du8, 0x0au8, 0x1au8, 0x0au8]
}

pub open spec fn jpeg_magic() -> Seq<u8> {
    seq![0xffu8, 0xd8u8, 0xffu8]
}

pub open spec fn gif87_magic() -> Seq<u8> {
    seq![0x47u8, 0x49u8, 0x46u8, 0x38u8, 0x37u8, 0x61u8]
}

pub open spec fn gif89_magic() -> Seq<u8> {
    seq![0x47u8, 0x49u8, 0x46u8, 0x38u8, 0x39u8, 0x61u8]
}

pub open spec fn riff_magic() -> Seq<u8> {
    seq![0x52u8, 0x49u8, 0x46u8, 0x46u8]
}

pub open spec fn webp_tag() -> Seq<u8> {
    seq![0x57u8, 0x45u8, 0x42u8, 0x50u8]
}

pub open spec fn woff_magic() -> Seq<u8> {
    seq![0x77u8, 0x4fu8, 0x46u8, 0x46u8]
}

pub open spec fn woff2_magic() -> Seq<u8> {
    seq![0x77u8, 0x4fu8, 0x46u8, 0x32u8]
}

pub open spec fn otf_magic() -> Seq<u8> {
    seq![0x4fu8, 0x54u8, 0x54u8, 0x4fu8]
}

pub open spec fn ttf_magic() -> Seq<u8> {
    seq![0x00u8, 0x01u8, 0x00u8, 0x00u8]
}

/// The byte pattern `p` stands at offset `at` in `b`.
pub open spec fn bytes_at(b: Seq<u8>, p: Seq<u8>, at: int) -> bool {
    0 <= at && at + p.len() <= b.len() && b.subrange(at, at + p.len() as int) == p
}

/// Tests a byte pattern at an offset.
pub fn bytes_match_at(b: &Vec<u8>, p: &Vec<u8>, at: usize) -> (r: bool)
    ensures
        r == bytes_at(b@, p@, at as int),
{
    if at > b.len() || p.len() > b.len() - at {
        proof {
            assert(!bytes_at(b@, p@, at as int));
        }
        return false;
    }
    let mut j: usize = 0;
    while j < p.len()
        invariant
            j <= p.len(),
            at + p.len() <= b.len(),
            forall|k: int| 0 <= k < j ==> b@[at + k] == p@[k],
        decreases p.len() - j,
    {
        if b[at + j] != p[j] {
            proof {
                assert(b@.subrange(at as int, at + p@.len() as int)[j as int] != p@[j as int]);
            }
            return false;
        }
        j = j + 1;
    }
    proof {
        assert(b@.subrange(at as int, at + p@.len() as int) =~= p@);
    }
    true
}

/// The mime/extension pair that magic-byte sniffing yields, if any.
pub open spec fn spec_magic_sniff(b: Seq<u8>) -> Option<(Seq<char>, Seq<char>)> {
    if bytes_at(b, png_magic(), 0) {
        Some(pair("image/png"@, "png"@))
    } else if bytes_at(b, jpeg_magic(), 0) {
        Some(pair("image/jpeg"@, "jpg"@))
    } else if bytes_at(b, gif87_magic(), 0) || bytes_at(b, gif89_magic(), 0) {
        Some(pair("image/gif"@, "gif"@))
    } else if bytes_at(b, riff_magic(), 0) && bytes_at(b, webp_tag(), 8) {
        Some(pair("image/webp"@, "webp"@))
    } else if bytes_at(b, woff_magic(), 0) {
        Some(pair("font/woff"@, "woff"@))
    } else if bytes_at(b, woff2_magic(), 0) {
        Some(pair("font/woff2"@, "woff2"@))
    } else if bytes_at(b, otf_magic(), 0) {
        Some(pair("font/otf"@, "otf"@))
    } else if bytes_at(b, ttf_magic(), 0) {
        Some(pair("font/ttf"@, "ttf"@))
    } else {
        None
    }
}

fn magic_sniff(b: &Vec<u8>) -> (r: Option<(String, String)>)
    ensures
        (r is Some) == (spec_magic_sniff(b@) is Some),
        r matches Some(p) ==> Some((p.0@, p.1@)) == spec_magic_sniff(b@),
{
    let png: Vec<u8> = vec![0x89u8, 0x50u8, 0x4eu8, 0x47u8, 0x0du8, 0x0au8, 0x1au8, 0x0au8];
    let jpeg: Vec<u8> = vec![0xffu8, 0xd8u8, 0xffu8];
    let gif87: Vec<u8> = vec![0x47u8, 0x49u8, 0x46u8, 0x38u8, 0x37u8, 0x61u8];
    let gif89: Vec<u8> = vec![0x47u8, 0x49u8, 0x46u8, 0x38u8, 0x39u8, 0x61u8];
    let riff: Vec<u8> = vec![0x52u8, 0x49u8, 0x46u8, 0x46u8];
    let webp: Vec<u8> = vec![0x57u8, 0x45u8, 0x42u8, 0x50u8];
    let woff: Vec<u8> = vec![0x77u8, 0x4fu8, 0x46u8, 0x46u8];
    let woff2: Vec<u8> = vec![0x77u8, 0x4fu8, 0x46u8, 0x32u8];
    let otf: Vec<u8> = vec![0x4fu8, 0x54u8, 0x54u8, 0x4fu8];
    let ttf: Vec<u8> = vec![0x00u8, 0x01u8, 0x00u8, 0x00u8];
    if bytes_match_at(b, &png, 0) {
        Some((String::from_str("image/png"), String::from_str("png")))
    } else if bytes_match_at(b, &jpeg, 0) {
        Some((String::from_str("image/jpeg"), String::from_str("jpg")))
    } else if bytes_match_at(b, &gif87, 0) || bytes_match_at(b, &gif89, 0) {
        Some((String::from_str("image/gif"), String::from_str("gif")))
    } else if bytes_match_at(b, &riff, 0) && bytes_match_at(b, &webp, 8) {
        Some((String::from_str("image/webp"), String::from_str("webp")))
    } else if bytes_match_at(b, &woff, 0) {
        Some((String::from_str("font/woff"), String::from_str("woff")))
    } else if bytes_match_at(b, &woff2, 0) {
        Some((String::from_str("font/woff2"), String::from_str("woff2")))
    } else if bytes_match_at(b, &otf, 0) {
        Some((String::from_str("font/otf"), String::from_str("otf")))
    } else if bytes_match_at(b, &ttf, 0) {
        Some((String::from_str("font/ttf"), String::from_str("ttf")))
    } else {
        None
    }
}

/// The lowercased extension drawn from a URL path: everything after the last
/// `.`, or the whole path when it has no dot.
pub open spec fn spec_path_ext(path: Seq<char>) -> Seq<char> {
    lower(path.subrange(after_last_char(path, '.'), path.len() as int))
}

/// The mime/extension pair suggested by a remote URL's path, if any: known
/// image and font extensions, with WOFF2 as the fallback for font requests.
pub open spec fn spec_ext_from_path(path: Seq<char>, kind: AssetKind) -> Option<
    (Seq<char>, Seq<char>),
> {
    let ext = spec_path_ext(path);
    if ext == "png"@ {
        Some(pair("image/png"@, "png"@))
    } else if ext == "jpg"@ || ext == "jpeg"@ {
        Some(pair("image/jpeg"@, "jpg"@))
    } else if ext == "gif"@ {
        Some(pair("image/gif"@, "gif"@))
    } else if ext == "webp"@ {
        Some(pair("image/webp"@, "webp"@))
    } else if ext == "svg"@ {
        Some(pair("image/svg+xml"@, "svg"@))
    } else if ext == "woff2"@ {
        Some(pair("font/woff2"@, "woff2"@))
    } else if ext == "woff"@ {
        Some(pair("font/woff"@, "woff"@))
    } else if ext == "ttf"@ {
        Some(pair("font/ttf"@, "ttf"@))
    } else if ext == "otf"@ {
        Some(pair("font/otf"@, "otf"@))
    } else if ext == "eot"@ {
        Some(pair("application/vnd.ms-fontobject"@, "eot"@))
    } else if kind is Font {
        Some(pair("font/woff2"@, "woff2"@))
    } else {
        None
    }
}

fn ext_from_path(path: &Vec<char>, kind: AssetKind) -> (r: Option<(String, String)>)
    ensures
        (r is Some) == (spec_ext_from_path(path@, kind) is Some),
        r matches Some(p) ==> Some((p.0@, p.1@)) == spec_ext_from_path(path@, kind),
{
    let start = find_after_last(path, '.');
    let tail = subvec(path, start, path.len());
    let ext = to_lower_vec(&tail);
    let png = chars_of("png");
    let jpg = chars_of("jpg");
    let jpeg = chars_of("jpeg");
    let gif = chars_of("gif");
    let webp = chars_of("webp");
    let svg = chars_of("svg");
    let woff2 = chars_of("woff2");
    let woff = chars_of("woff");
    let ttf = chars_of("ttf");
    let otf = chars_of("otf");
    let eot = chars_of("eot");
    if vecs_eq(&ext, &png) {
        Some((String::from_str("image/png"), String::from_str("png")))
    } else if vecs_eq(&ext, &jpg) || vecs_eq(&ext, &jpeg) {
        Some((String::from_str("image/jpeg"), String::from_str("jpg")))
    } else if vecs_eq(&ext, &gif) {
        Some((String::from_str("image/gif"), String::from_str("gif")))
    } else if vecs_eq(&ext, &webp) {
        Some((String::from_str("image/webp"), String::from_str("webp")))
    } else if vecs_eq(&ext, &svg) {
        Some((String::from_str("image/svg+xml"), String::from_str("svg")))
    } else if vecs_eq(&ext, &woff2) {
        Some((String::from_str("font/woff2"), String::from_str("woff2")))
    } else if vecs_eq(&ext, &woff) {
        Some((String::from_str("font/woff"), String::from_str("woff")))
    } else if vecs_eq(&ext, &ttf) {
        Some((String::from_str("font/ttf"), String::from_str("ttf")))
    } else if vecs_eq(&ext, &otf) {
        Some((String::from_str("font/otf"), String::from_str("otf")))
    } else if vecs_eq(&ext, &eot) {
        Some((String::from_str("application/vnd.ms-fontobject"), String::from_str("eot")))
    } else if matches!(kind, AssetKind::Font) {
        Some((String::from_str("font/woff2"), String::from_str("woff2")))
    } else {
        None
    }
}

/// The `Content-Type` value up to the first `;`, trimmed.
pub open spec fn spec_hint_mime(h: Seq<char>) -> Seq<char> {
    spec_trim(h.subrange(0, crate::strutil::find_char(h, ';') as int))
}

/// View of an optional string argument.
pub open spec fn opt_view(o: Option<&str>) -> Option<Seq<char>> {
    match o {
        Some(s) => Some(s@),
        None => None,
    }
}

/// The inferred mime and extension for fetched bytes: the `Content-Type`
/// hint first, then magic bytes, then the remote path's extension, then
/// `application/octet-stream` with extension `bin`.
pub open spec fn spec_sniff(
    bytes: Seq<u8>,
    hint: Option<Seq<char>>,
    kind: AssetKind,
    remote_path: Option<Seq<char>>,
) -> (Seq<char>, Seq<char>) {
    let from_hint = match hint {
        Some(h) => spec_mime_to_ext(spec_hint_mime(h), kind),
        None => None,
    };
    if from_hint is Some {
        from_hint->Some_0
    } else if spec_magic_sniff(bytes) is Some {
        spec_magic_sniff(bytes)->Some_0
    } else {
        let from_path = match remote_path {
            Some(p) => spec_ext_from_path(p, kind),
            None => None,
        };
        if from_path is Some {
            from_path->Some_0
        } else {
            pair("application/octet-stream"@, "bin"@)
        }
    }
}

/// The sniff falls through to the remote path's extension: only then can the
/// source's URL influence the result.
pub open spec fn sniff_uses_path(bytes: Seq<u8>, hint: Option<Seq<char>>, kind: AssetKind) -> bool {
    (match hint {
        Some(h) => spec_mime_to_ext(spec_hint_mime(h), kind) is None,
        None => true,
    }) && spec_magic_sniff(bytes) is None
}

/// Infers mime and extension for fetched bytes.
pub fn sniff_mime_and_ext(
    bytes: &Vec<u8>,
    hint: Option<&str>,
    kind: AssetKind,
    remote_path: Option<&str>,
) -> (r: (String, String))
    ensures
        (r.0@, r.1@) == spec_sniff(bytes@, opt_view(hint), kind, opt_view(remote_path)),
{
    if let Some(h) = hint {
        let hv = chars_of(h);
        let cut = find_char_from(&hv, ';', 0);
        proof {
            lemma_find_char_at(hv@, ';', cut as int);
        }
        let head = subvec(&hv, 0, cut);
        let mime = trim_vec(&head);
        if let Some(p) = mime_to_ext(&mime, kind) {
            return p;
        }
    }
    if let Some(p) = magic_sniff(bytes) {
        return p;
    }
    if let Some(path) = remote_path {
        let pv = chars_of(path);
        if let Some(p) = ext_from_path(&pv, kind) {
            return p;
        }
    }
    (String::from_str("application/octet-stream"), String::from_str("bin"))
}

/// When the sniff is decided by content and headers alone, the source URL
/// cannot influence the inferred mime or extension.
pub proof fn lemma_sniff_source_independent(
    bytes: Seq<u8>,
    hint: Option<Seq<char>>,
    kind: AssetKind,
    p1: Option<Seq<char>>,
    p2: Option<Seq<char>>,
)
    requires
        !sniff_uses_path(bytes, hint, kind),
    ensures
        spec_sniff(bytes, hint, kind, p1) == spec_sniff(bytes, hint, kind, p2),
{
}

} // verus!
