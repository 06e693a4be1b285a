//! The CSS bundler: origins, URL resolution inside stylesheets, asset-kind
//! classification, stylesheet discovery, and the bundling machine that
//! inlines `@import` chains and rewrites `url()` references.
//!
//! Loading a stylesheet's text and settling an asset are outside work; the
//! machine asks for them one at a time and its caller answers, so every
//! decision in between is verified. A visited set keyed by origin makes
//! cyclic and diamond-shaped import graphs safe: no origin is ever requested
//! twice.

use vstd::prelude::*;

use crate::assets::{AssetKind, AssetRequest, AssetSource, OutputMode};
use crate::cssscan::{find_import_ref, find_url_ref};
use crate::htmlrewrite::opt_str_view;
use crate::sniff::spec_path_ext;
use crate::strutil::{
    after_last_char, chars_of, contains_seq, contains_pat, find_after_last, has_prefix, lower,
    match_at, spec_replace, spec_trim, spec_ws_tokens, string_from_chars, subvec, to_lower_vec,
    trim_vec, vecs_eq, ws_tokens,
};
use crate::urlres::{
    url_join, url_join_norm, url_parse, url_parse_norm, url_path, url_path_of, BaseUrl,
};

verus! {

/// Where a stylesheet's text and its relative-URL base come from.
#[derive(Debug)]
pub enum CssOrigin {
    Local(String),
    Remote(String),
}

/// The canonical key of an origin, used by the visited set.
pub open spec fn spec_origin_key(o: CssOrigin) -> Seq<char> {
    match o {
        CssOrigin::Local(p) => "file:"@ + p@,
        CssOrigin::Remote(u) => u@,
    }
}

/// Computes an origin's canonical key.
pub fn origin_key(o: &CssOrigin) -> (k: String)
    ensures
        k@ == spec_origin_key(*o),
{
    match o {
        CssOrigin::Local(p) => {
            let mut k = String::from_str("file:");
            k.append(p.as_str());
            k
        },
        CssOrigin::Remote(u) => u.clone(),
    }
}

/// A reference that cannot be fetched and passes through untouched: empty, a
/// `data:`/`about:`/`blob:` scheme, or a fragment.
pub open spec fn spec_non_fetchable(url: Seq<char>) -> bool {
    let u = spec_trim(url);
    ||| u.len() == 0
    ||| has_prefix(u, "data:"@)
    ||| has_prefix(u, "about:"@)
    ||| has_prefix(u, "#"@)
    ||| has_prefix(u, "blob:"@)
}

/// Tests whether a reference is inert and left untouched.
pub fn is_non_fetchable_url(url: &str) -> (r: bool)
    ensures
        r == spec_non_fetchable(url@),
{
    let v = chars_of(url);
    let u = trim_vec(&v);
    if u.len() == 0 {
        return true;
    }
    let data = chars_of("data:");
    let about = chars_of("about:");
    let hash = chars_of("#");
    let blob = chars_of("blob:");
    match_at(&u, &data, 0) || match_at(&u, &about, 0) || match_at(&u, &hash, 0) || match_at(
        &u,
        &blob,
        0,
    )
}

/// One `"` escaped as `\"`, so a rewritten target sits safely inside
/// `url("...")`.
pub open spec fn spec_escape_double_quotes(s: Seq<char>) -> Seq<char> {
    spec_replace(s, seq!['"'], seq!['\\', '"'])
}

/// Escapes double quotes for substitution into `url("...")`.
pub fn escape_double_quotes(s: &str) -> (r: String)
    ensures
        r@ == spec_escape_double_quotes(s@),
{
    let v = chars_of(s);
    let pat: Vec<char> = vec!['"'];
    let sub: Vec<char> = vec!['\\', '"'];
    let out = crate::strutil::replace_all(&v, &pat, &sub);
    proof {
        assert(pat@ =~= seq!['"']);
        assert(sub@ =~= seq!['\\', '"']);
    }
    string_from_chars(&out)
}

/// A stored path rewritten for the bundled stylesheet, which lives one level
/// beneath the asset tree: a leading `<assets_dir>/` becomes `../`; data URIs
/// and foreign paths pass through.
pub open spec fn spec_relativize(replacement: Seq<char>, assets_dir: Seq<char>) -> Seq<char> {
    if has_prefix(replacement, "data:"@) {
        replacement
    } else {
        let prefix = assets_dir + seq!['/'];
        if has_prefix(replacement, prefix) {
            "../"@ + replacement.subrange(prefix.len() as int, replacement.len() as int)
        } else {
            replacement
        }
    }
}

/// Rewrites a stored asset path for use from the bundled stylesheet.
pub fn relativize_for_bundled_css(replacement: &str, assets_dir_name: &str) -> (r: String)
    ensures
        r@ == spec_relativize(replacement@, assets_dir_name@),
{
    let v = chars_of(replacement);
    let data = chars_of("data:");
    if match_at(&v, &data, 0) {
        return String::from_str(replacement);
    }
    let mut prefix = chars_of(assets_dir_name);
    prefix.push('/');
    proof {
        assert(prefix@ =~= assets_dir_name@ + seq!['/']);
    }
    if match_at(&v, &prefix, 0) {
        let rest = subvec(&v, prefix.len(), v.len());
        let mut r = String::from_str("../");
        let tail = string_from_chars(&rest);
        r.append(tail.as_str());
        return r;
    }
    String::from_str(replacement)
}

/// A `<link>` element is a stylesheet reference: its whitespace-separated
/// `rel` tokens, lowercased, contain `stylesheet`, or contain `preload` with
/// `as` equal (case-insensitively) to `style`.
pub open spec fn spec_is_css_link_rel(rel: Seq<char>, as_attr: Option<Seq<char>>) -> bool {
    let toks = spec_ws_tokens(rel);
    ||| exists|i: int| 0 <= i < toks.len() && lower(#[trigger] toks[i]) == "stylesheet"@
    ||| ((exists|i: int| 0 <= i < toks.len() && lower(#[trigger] toks[i]) == "preload"@) && (
    as_attr matches Some(a) && lower(a) == "style"@))
}

/// Decides whether a `<link>` element names a stylesheet.
pub fn is_css_link_rel(rel: &str, as_attr: Option<&str>) -> (r: bool)
    ensures
        r == spec_is_css_link_rel(rel@, opt_str_view(as_attr)),
{
    let rv = chars_of(rel);
    let toks = ws_tokens(&rv);
    let stylesheet = chars_of("stylesheet");
    let preload = chars_of("preload");
    let mut has_stylesheet = false;
    let mut has_preload = false;
    let ghost tview = spec_ws_tokens(rel@);
    let mut i: usize = 0;
    while i < toks.len()
        invariant
            toks.deep_view() == tview,
            toks@.len() == tview.len(),
            stylesheet@ == "stylesheet"@,
            preload@ == "preload"@,
            i <= toks@.len(),
            has_stylesheet == exists|k: int| 0 <= k < i && lower(#[trigger] tview[k])
                == "stylesheet"@,
            has_preload == exists|k: int| 0 <= k < i && lower(#[trigger] tview[k]) == "preload"@,
        decreases toks.len() - i,
    {
        proof {
            assert(toks@[i as int]@ == tview[i as int]);
        }
        let low = to_lower_vec(&toks[i]);
        if vecs_eq(&low, &stylesheet) {
            has_stylesheet = true;
        }
        if vecs_eq(&low, &preload) {
            has_preload = true;
        }
        i = i + 1;
    }
    if has_stylesheet {
        return true;
    }
    if has_preload {
        if let Some(a) = as_attr {
            let av = chars_of(a);
            let al = to_lower_vec(&av);
            let style = chars_of("style");
            if vecs_eq(&al, &style) {
                return true;
            }
        }
    }
    false
}

/// A reference resolved inside a stylesheet, before it becomes a request.
#[derive(Debug)]
pub enum ResolvedAsset {
    Remote(String),
    Local(String),
}

/// View of a resolution outcome.
pub open spec fn resolved_view(r: ResolvedAsset) -> Result<Seq<char>, Seq<char>> {
    match r {
        ResolvedAsset::Remote(u) => Ok(u@),
        ResolvedAsset::Local(p) => Err(p@),
    }
}

/// Textual directory join for local stylesheet paths: the reference lands
/// next to the file, in its parent directory.
pub open spec fn spec_dir_join(p: Seq<char>, raw: Seq<char>) -> Seq<char> {
    let k = after_last_char(p, '/') - 1;
    if k >= 0 {
        if k == 0 && p.len() == 1 {
            "./"@ + raw
        } else if k == 0 {
            seq!['/'] + raw
        } else {
            p.subrange(0, k) + seq!['/'] + raw
        }
    } else if p.len() == 0 {
        "./"@ + raw
    } else {
        raw
    }
}

fn dir_join(p: &str, raw: &Vec<char>) -> (r: String)
    ensures
        r@ == spec_dir_join(p@, raw@),
{
    let pv = chars_of(p);
    let after = find_after_last(&pv, '/');
    let tail = string_from_chars(raw);
    if after >= 1 {
        let k = after - 1;
        if k == 0 && pv.len() == 1 {
            let mut r = String::from_str("./");
            r.append(tail.as_str());
            r
        } else if k == 0 {
            let mut r = String::from_str("/");
            let ghost target = seq!['/'] + raw@;
            r.append(tail.as_str());
            proof {
                reveal_strlit("/");
                assert(r@ =~= target);
            }
            r
        } else {
            let head = subvec(&pv, 0, k);
            let mut r = string_from_chars(&head);
            r.append("/");
            proof {
                reveal_strlit("/");
                assert(r@ =~= pv@.subrange(0, k as int) + seq!['/']);
            }
            r.append(tail.as_str());
            r
        }
    } else if pv.len() == 0 {
        let mut r = String::from_str("./");
        r.append(tail.as_str());
        r
    } else {
        tail
    }
}

/// How a reference inside a stylesheet resolves: absolute and
/// protocol-relative references as everywhere; root-relative ones against
/// the origin's own host (or the site's base for a local origin); anything
/// else against the origin itself — a URL join for remote origins, a
/// directory join for local ones. `None` is a failed parse or join.
pub open spec fn spec_resolve_css(
    base_full: Seq<char>,
    base_scheme: Seq<char>,
    origin: Result<Seq<char>, Seq<char>>,
    raw: Seq<char>,
) -> Option<Result<Seq<char>, Seq<char>>> {
    if has_prefix(raw, "http://"@) || has_prefix(raw, "https://"@) {
        match url_parse_norm(raw) {
            Some(u) => Some(Ok(u)),
            None => None,
        }
    } else if has_prefix(raw, "//"@) {
        match url_parse_norm(base_scheme + seq![':'] + raw) {
            Some(u) => Some(Ok(u)),
            None => None,
        }
    } else if has_prefix(raw, "/"@) {
        let b = match origin {
            Ok(u) => u,
            Err(_) => base_full,
        };
        match url_join_norm(b, raw) {
            Some(u) => Some(Ok(u)),
            None => None,
        }
    } else {
        match origin {
            Err(p) => Some(Err(spec_dir_join(p, raw))),
            Ok(u) => match url_join_norm(u, raw) {
                Some(j) => Some(Ok(j)),
                None => None,
            },
        }
    }
}

/// Resolves a reference found inside a stylesheet.
pub fn resolve_css_url(base: &BaseUrl, origin: &CssOrigin, raw: &Vec<char>) -> (r: Option<
    ResolvedAsset,
>)
    ensures
        (r is Some) == (spec_resolve_css(base.full@, base.scheme@, origin_view(*origin), raw@)
            is Some),
        r matches Some(a) ==> Some(resolved_view(a)) == spec_resolve_css(
            base.full@,
            base.scheme@,
            origin_view(*origin),
            raw@,
        ),
{
    let http = chars_of("http://");
    let https = chars_of("https://");
    let proto = chars_of("//");
    let slash = chars_of("/");
    let rs = string_from_chars(raw);
    if match_at(raw, &http, 0) || match_at(raw, &https, 0) {
        match url_parse(rs.as_str()) {
            Some(u) => Some(ResolvedAsset::Remote(u)),
            None => None,
        }
    } else if match_at(raw, &proto, 0) {
        let mut t = base.scheme.clone();
        t.append(":");
        t.append(rs.as_str());
        proof {
            reveal_strlit(":");
            assert(t@ =~= base.scheme@ + seq![':'] + raw@);
        }
        match url_parse(t.as_str()) {
            Some(u) => Some(ResolvedAsset::Remote(u)),
            None => None,
        }
    } else if match_at(raw, &slash, 0) {
        let b = match origin {
            CssOrigin::Remote(u) => u.as_str(),
            CssOrigin::Local(_) => base.full.as_str(),
        };
        match url_join(b, rs.as_str()) {
            Some(u) => Some(ResolvedAsset::Remote(u)),
            None => None,
        }
    } else {
        match origin {
            CssOrigin::Local(p) => Some(ResolvedAsset::Local(dir_join(p.as_str(), raw))),
            CssOrigin::Remote(u) => match url_join(u.as_str(), rs.as_str()) {
                Some(j) => Some(ResolvedAsset::Remote(j)),
                None => None,
            },
        }
    }
}

/// Resolves an `@import` target to the origin it names.
pub fn resolve_import_origin(base: &BaseUrl, origin: &CssOrigin, raw: &Vec<char>) -> (r: Option<
    CssOrigin,
>)
    ensures
        (r is Some) == (spec_resolve_css(base.full@, base.scheme@, origin_view(*origin), raw@)
            is Some),
        r matches Some(o) ==> Some(origin_view(o)) == spec_resolve_css(
            base.full@,
            base.scheme@,
            origin_view(*origin),
            raw@,
        ),
{
    match resolve_css_url(base, origin, raw) {
        Some(ResolvedAsset::Remote(u)) => Some(CssOrigin::Remote(u)),
        Some(ResolvedAsset::Local(p)) => Some(CssOrigin::Local(p)),
        None => None,
    }
}

/// The extension a local path shows, by the file-name rules: the suffix of
/// the final component after its last dot, lowercased; none when the final
/// component has no dot past its first character.
pub open spec fn spec_local_ext(p: Seq<char>) -> Seq<char> {
    let fname = p.subrange(after_last_char(p, '/'), p.len() as int);
    let d = after_last_char(fname, '.');
    if d <= 1 {
        Seq::empty()
    } else {
        lower(fname.subrange(d, fname.len() as int))
    }
}

fn local_ext(p: &str) -> (r: Vec<char>)
    ensures
        r@ == spec_local_ext(p@),
{
    let pv = chars_of(p);
    let fstart = find_after_last(&pv, '/');
    let fname = subvec(&pv, fstart, pv.len());
    let d = find_after_last(&fname, '.');
    if d <= 1 {
        Vec::new()
    } else {
        let tail = subvec(&fname, d, fname.len());
        to_lower_vec(&tail)
    }
}

/// Whether an extension names a font.
pub open spec fn spec_is_font_ext(e: Seq<char>) -> bool {
    e == "woff2"@ || e == "woff"@ || e == "ttf"@ || e == "otf"@ || e == "eot"@
}

/// Whether an extension names an image.
pub open spec fn spec_is_image_ext(e: Seq<char>) -> bool {
    ||| e == "png"@
    ||| e == "jpg"@
    ||| e == "jpeg"@
    ||| e == "gif"@
    ||| e == "webp"@
    ||| e == "svg"@
    ||| e == "avif"@
}

/// The asset kind a resolved stylesheet reference is classified as: font
/// extensions and the Google-font hosts are fonts, image extensions images,
/// anything else other.
pub open spec fn spec_guess_kind(r: Result<Seq<char>, Seq<char>>, raw: Seq<char>) -> AssetKind {
    let ext = match r {
        Ok(u) => match url_path_of(u) {
            Some(p) => spec_path_ext(p),
            None => Seq::empty(),
        },
        Err(p) => spec_local_ext(p),
    };
    if spec_is_font_ext(ext) {
        AssetKind::Font
    } else if spec_is_image_ext(ext) {
        AssetKind::Image
    } else if contains_seq(raw, "fonts.googleapis.com"@) || contains_seq(
        raw,
        "fonts.gstatic.com"@,
    ) {
        AssetKind::Font
    } else {
        AssetKind::Other
    }
}

/// Classifies a resolved stylesheet reference.
pub fn guess_asset_kind(r: &ResolvedAsset, raw: &Vec<char>) -> (k: AssetKind)
    ensures
        k == spec_guess_kind(resolved_view(*r), raw@),
{
    let ext: Vec<char> = match r {
        ResolvedAsset::Remote(u) => {
            match url_path(u.as_str()) {
                Some(p) => {
                    let pv = chars_of(p.as_str());
                    let start = find_after_last(&pv, '.');
                    let tail = subvec(&pv, start, pv.len());
                    to_lower_vec(&tail)
                },
                None => Vec::new(),
            }
        },
        ResolvedAsset::Local(p) => local_ext(p.as_str()),
    };
    let woff2 = chars_of("woff2");
    let woff = chars_of("woff");
    let ttf = chars_of("ttf");
    let otf = chars_of("otf");
    let eot = chars_of("eot");
    if vecs_eq(&ext, &woff2) || vecs_eq(&ext, &woff) || vecs_eq(&ext, &ttf) || vecs_eq(&ext, &otf)
        || vecs_eq(&ext, &eot) {
        return AssetKind::Font;
    }
    let png = chars_of("png");
    let jpg = chars_of("jpg");
    let jpeg = chars_of("jpeg");
    let gif = chars_of("gif");
    let webp = chars_of("webp");
    let svg = chars_of("svg");
    let avif = chars_of("avif");
    if vecs_eq(&ext, &png) || vecs_eq(&ext, &jpg) || vecs_eq(&ext, &jpeg) || vecs_eq(&ext, &gif)
        || vecs_eq(&ext, &webp) || vecs_eq(&ext, &svg) || vecs_eq(&ext, &avif) {
        return AssetKind::Image;
    }
    let goog = chars_of("fonts.googleapis.com");
    let gstatic = chars_of("fonts.gstatic.com");
    if contains_pat(raw, &goog) || contains_pat(raw, &gstatic) {
        return AssetKind::Font;
    }
    AssetKind::Other
}

/// View of an origin's data.
pub open spec fn origin_view(o: CssOrigin) -> Result<Seq<char>, Seq<char>> {
    match o {
        CssOrigin::Remote(u) => Ok(u@),
        CssOrigin::Local(p) => Err(p@),
    }
}

/// Copies an origin, keeping its view.
pub fn dup_origin(o: &CssOrigin) -> (r: CssOrigin)
    ensures
        origin_view(r) == origin_view(*o),
        spec_origin_key(r) == spec_origin_key(*o),
{
    match o {
        CssOrigin::Remote(u) => CssOrigin::Remote(u.clone()),
        CssOrigin::Local(p) => CssOrigin::Local(p.clone()),
    }
}

/// The visited set holds this key.
pub open spec fn visited_has(v: Seq<String>, k: Seq<char>) -> bool {
    exists|i: int| 0 <= i < v.len() && v[i]@ == k
}

/// No key appears twice in the visited set.
pub open spec fn visited_unique(v: Seq<String>) -> bool {
    forall|i: int, j: int| 0 <= i < j < v.len() ==> v[i]@ != v[j]@
}

/// One `<link>` element as the discovery scan reads it.
#[derive(Debug)]
pub struct LinkScan {
    pub rel: String,
    pub as_attr: Option<String>,
    pub href: String,
}

/// View of a link scan.
pub open spec fn link_view(l: LinkScan) -> (Seq<char>, Option<Seq<char>>, Seq<char>) {
    (
        l.rel@,
        match l.as_attr {
            Some(a) => Some(a@),
            None => None,
        },
        l.href@,
    )
}

/// The stylesheet URLs discovered from the `<link>` elements of a page, in
/// document order, deduplicated by resolved URL; `None` when a stylesheet
/// href does not resolve. Non-stylesheet links and empty or inert hrefs are
/// passed over.
pub open spec fn spec_select_origins(
    base: BaseUrl,
    links: Seq<(Seq<char>, Option<Seq<char>>, Seq<char>)>,
    i: int,
    acc: Seq<Seq<char>>,
) -> Option<Seq<Seq<char>>>
    decreases links.len() - i,
{
    if i < 0 || i >= links.len() {
        Some(acc)
    } else {
        let (rel, asa, href) = links[i];
        if !spec_is_css_link_rel(rel, asa) {
            spec_select_origins(base, links, i + 1, acc)
        } else {
            let h = spec_trim(href);
            if h.len() == 0 || spec_non_fetchable(h) {
                spec_select_origins(base, links, i + 1, acc)
            } else {
                match crate::urlres::spec_resolve_any(base, h) {
                    None => None,
                    Some(u) => if acc.contains(u) {
                        spec_select_origins(base, links, i + 1, acc)
                    } else {
                        spec_select_origins(base, links, i + 1, acc.push(u))
                    },
                }
            }
        }
    }
}

/// Views of the scanned links.
pub open spec fn links_view(links: Seq<LinkScan>) -> Seq<(Seq<char>, Option<Seq<char>>, Seq<char>)> {
    links.map_values(|l: LinkScan| link_view(l))
}

/// Views of the selected origins.
pub open spec fn origins_view(os: Seq<CssOrigin>) -> Seq<Seq<char>> {
    os.map_values(|o: CssOrigin| spec_origin_key(o))
}

fn urls_contain(acc: &Vec<String>, u: &str) -> (r: bool)
    ensures
        r == acc@.map_values(|s: String| s@).contains(u@),
{
    let uv = chars_of(u);
    let mut i: usize = 0;
    while i < acc.len()
        invariant
            uv@ == u@,
            i <= acc@.len(),
            forall|k: int| 0 <= k < i ==> acc@[k]@ != u@,
        decreases acc.len() - i,
    {
        let av = chars_of(acc[i].as_str());
        if vecs_eq(&av, &uv) {
            proof {
                assert(acc@.map_values(|s: String| s@)[i as int] == u@);
            }
            return true;
        }
        i = i + 1;
    }
    proof {
        let m = acc@.map_values(|s: String| s@);
        assert forall|k: int| 0 <= k < m.len() implies #[trigger] m[k] != u@ by {
            assert(m[k] == acc@[k]@);
        }
    }
    false
}

/// Picks the stylesheet origins out of a page's `<link>` elements: those
/// whose `rel` names a stylesheet, with a resolvable, fetchable href,
/// deduplicated by absolute URL in document order. An unresolvable
/// stylesheet href fails the discovery.
pub fn select_css_origins(base: &BaseUrl, links: &Vec<LinkScan>) -> (r: Result<
    Vec<CssOrigin>,
    crate::htmlrewrite::BadUrl,
>)
    ensures
        (r is Ok) == (spec_select_origins(*base, links_view(links@), 0, Seq::empty()) is Some),
        r matches Ok(os) ==> ({
            &&& Some(origins_view(os@)) == spec_select_origins(
                *base,
                links_view(links@),
                0,
                Seq::empty(),
            )
            &&& forall|k: int| 0 <= k < os@.len() ==> (#[trigger] os@[k]) is Remote
        }),
{
    let ghost lview = links_view(links@);
    let mut acc: Vec<String> = Vec::new();
    let mut out: Vec<CssOrigin> = Vec::new();
    let mut i: usize = 0;
    proof {
        assert(acc@.map_values(|s: String| s@) =~= Seq::<Seq<char>>::empty());
    }
    while i < links.len()
        invariant
            lview == links_view(links@),
            lview.len() == links@.len(),
            i <= links@.len(),
            acc@.len() == out@.len(),
            forall|k: int| 0 <= k < out@.len() ==> (#[trigger] out@[k]) is Remote,
            origins_view(out@) == acc@.map_values(|s: String| s@),
            spec_select_origins(*base, lview, 0, Seq::empty()) == spec_select_origins(
                *base,
                lview,
                i as int,
                acc@.map_values(|s: String| s@),
            ),
        decreases links.len() - i,
    {
        let ghost acc0 = acc@.map_values(|s: String| s@);
        proof {
            assert(lview[i as int] == link_view(links@[i as int]));
        }
        let rel = links[i].rel.as_str();
        let asa: Option<&str> = match &links[i].as_attr {
            Some(a) => Some(a.as_str()),
            None => None,
        };
        if !is_css_link_rel(rel, asa) {
            i = i + 1;
            continue ;
        }
        let hv = chars_of(links[i].href.as_str());
        let h = trim_vec(&hv);
        let hs = string_from_chars(&h);
        if h.len() == 0 || is_non_fetchable_url(hs.as_str()) {
            proof {
                crate::strutil::lemma_trim_idempotent(links@[i as int].href@);
            }
            i = i + 1;
            continue ;
        }
        proof {
            crate::strutil::lemma_trim_idempotent(links@[i as int].href@);
        }
        let u = match crate::urlres::resolve_any_vec(base, &h) {
            Some(u) => u,
            None => {
                return Err(crate::htmlrewrite::BadUrl { raw: hs });
            },
        };
        if urls_contain(&acc, u.as_str()) {
            i = i + 1;
            continue ;
        }
        acc.push(u.clone());
        out.push(CssOrigin::Remote(u));
        proof {
            assert(acc@.map_values(|s: String| s@) =~= acc0.push(acc@.last()@));
            assert(origins_view(out@) =~= acc@.map_values(|s: String| s@));
        }
        i = i + 1;
    }
    proof {
        assert(spec_select_origins(*base, lview, i as int, acc@.map_values(|s: String| s@))
            == Some(acc@.map_values(|s: String| s@)));
    }
    Ok(out)
}

proof fn lemma_visited_push(old_v: Seq<String>, new_v: Seq<String>, k: Seq<char>, key_s: String)
    requires
        visited_unique(old_v),
        !visited_has(old_v, k),
        key_s@ == k,
        new_v == old_v.push(key_s),
    ensures
        visited_unique(new_v),
        visited_has(new_v, k),
        old_v.is_prefix_of(new_v),
        new_v.len() == old_v.len() + 1,
{
    assert(new_v[new_v.len() - 1] == key_s);
    assert(visited_has(new_v, k));
    assert forall|i: int, j: int| 0 <= i < j < new_v.len() implies new_v[i]@ != new_v[j]@ by {
        if j < new_v.len() - 1 {
            assert(new_v[i] == old_v[i] && new_v[j] == old_v[j]);
        } else {
            assert(new_v[i] == old_v[i]);
            assert(!(old_v[i]@ == k));
        }
    }
    assert(new_v.subrange(0, old_v.len() as int) =~= old_v);
}

/// A cyclic or diamond-shaped import graph is safe because the visited keys
/// never repeat: once a key enters the set, `step` refuses to request it
/// again, so each of two mutually-importing stylesheets is loaded and inlined
/// exactly once, in encounter order.
pub proof fn lemma_visited_never_repeats(v: Seq<String>, k: Seq<char>)
    requires
        visited_unique(v),
        visited_has(v, k),
    ensures
        exists|i: int|
            0 <= i < v.len() && v[i]@ == k && (forall|j: int|
                0 <= j < v.len() && v[j]@ == k ==> j == i),
{
    let i = choose|i: int| 0 <= i < v.len() && v[i]@ == k;
    assert(0 <= i < v.len() && v[i]@ == k && (forall|j: int|
        0 <= j < v.len() && v[j]@ == k ==> j == i));
}

/// What the bundling machine asks of its driver next.
pub enum BundleStep {
    /// Load this origin's text (read the file, or fetch the URL as text) and
    /// answer with `provide_text`.
    NeedText(CssOrigin),
    /// Settle this asset request and answer with `provide_asset`.
    NeedAsset(AssetRequest),
    /// The machine advanced by one internal step; call `step` again.
    Continue,
    /// The bundled stylesheet, finished.
    Done(String),
    /// The run is aborted with this error text.
    Fail(String),
}

/// Whose turn it is in the bundling protocol.
#[derive(PartialEq, Eq, Structural, Clone, Copy, Debug)]
pub enum Waiting {
    Ready,
    Text,
    Asset,
    Finished,
}

struct Frame {
    origin: CssOrigin,
    text: Vec<char>,
    pos: usize,
    out: String,
    wrap_media: Option<String>,
}

/// The ghost image of one stylesheet being processed: where its text came
/// from (`Ok` a remote URL, `Err` a local path), the text, the scan position,
/// the output built so far, and the media clause of the import that brought
/// it, if any.
pub struct FrameState {
    pub origin: Result<Seq<char>, Seq<char>>,
    pub text: Seq<char>,
    pub pos: int,
    pub out: Seq<char>,
    pub wrap_media: Option<Seq<char>>,
}

/// The ghost image of the whole machine; every contract of the machine is an
/// equality over this state, so a run's output is fully determined by the
/// origins and the answers the driver gives.
pub struct BundlerState {
    pub base_full: Seq<char>,
    pub base_scheme: Seq<char>,
    pub mode: OutputMode,
    pub assets_dir: Seq<char>,
    pub origins: Seq<Result<Seq<char>, Seq<char>>>,
    pub next_origin: int,
    pub started: bool,
    pub visited: Seq<Seq<char>>,
    pub frames: Seq<FrameState>,
    pub bundled: Seq<char>,
    pub waiting: Waiting,
    pub pending: Option<Result<Seq<char>, Seq<char>>>,
    pub pending_end: int,
    pub pending_kind: AssetKind,
}

/// What one `step` call yields, in ghost terms.
pub enum StepState {
    NeedText(Result<Seq<char>, Seq<char>>),
    NeedAsset(AssetKind, Result<Seq<char>, Seq<char>>),
    Progress,
    Done(Seq<char>),
    Fail(Seq<char>),
}

/// The canonical key of an origin image.
pub open spec fn key_of(o: Result<Seq<char>, Seq<char>>) -> Seq<char> {
    match o {
        Ok(u) => u,
        Err(p) => "file:"@ + p,
    }
}

/// Ghost image of an asset source.
pub open spec fn source_state(s: AssetSource) -> Result<Seq<char>, Seq<char>> {
    match s {
        AssetSource::Remote(u) => Ok(u@),
        AssetSource::Local(p) => Err(p@),
    }
}

/// Ghost image of a step result.
pub open spec fn step_state(r: BundleStep) -> StepState {
    match r {
        BundleStep::NeedText(o) => StepState::NeedText(origin_view(o)),
        BundleStep::NeedAsset(q) => StepState::NeedAsset(q.kind, source_state(q.source)),
        BundleStep::Continue => StepState::Progress,
        BundleStep::Done(b) => StepState::Done(b@),
        BundleStep::Fail(m) => StepState::Fail(m@),
    }
}

/// The settlement transition: the pending asset value becomes a `url("...")`
/// substitution in the top frame — escaped, relativized in directory mode —
/// a failed font degrades to the inert placeholder, and any other failure
/// aborts the run.
pub open spec fn spec_settle_asset(v: BundlerState, res: Result<Seq<char>, Seq<char>>) -> (
    BundlerState,
    StepState,
) {
    if v.frames.len() == 0 {
        (v, StepState::Fail(Seq::empty()))
    } else if res is Err && !(v.pending_kind is Font) {
        (
            BundlerState { pending: None, waiting: Waiting::Finished, ..v },
            StepState::Fail("download asset failed: "@ + res->Err_0),
        )
    } else {
        let settled = match res {
            Ok(val) => val,
            Err(_) => "data:font/woff2;base64,"@,
        };
        let repl = if v.mode is Dir {
            spec_relativize(settled, v.assets_dir)
        } else {
            settled
        };
        let f = v.frames.last();
        let f1 = FrameState {
            out: f.out + "url(\""@ + spec_escape_double_quotes(repl) + "\")"@,
            pos: v.pending_end,
            ..f
        };
        (
            BundlerState {
                frames: v.frames.update(v.frames.len() - 1, f1),
                pending: None,
                waiting: Waiting::Ready,
                ..v
            },
            StepState::Progress,
        )
    }
}

/// The between-origins transition: finish with the bundle, or take the next
/// top-level origin — a newline separates consecutive origins, a repeated
/// origin contributes only its trailing newline, and a fresh one is recorded
/// and requested.
pub open spec fn spec_next_origin(v: BundlerState) -> (BundlerState, StepState) {
    if v.next_origin >= v.origins.len() {
        (BundlerState { waiting: Waiting::Finished, ..v }, StepState::Done(v.bundled))
    } else {
        let o = v.origins[v.next_origin];
        let b1 = if v.started {
            v.bundled + "\n"@
        } else {
            v.bundled
        };
        let key = key_of(o);
        if v.visited.contains(key) {
            (
                BundlerState {
                    next_origin: v.next_origin + 1,
                    started: true,
                    bundled: b1 + "\n"@,
                    ..v
                },
                StepState::Progress,
            )
        } else {
            (
                BundlerState {
                    next_origin: v.next_origin + 1,
                    started: true,
                    bundled: b1,
                    visited: v.visited.push(key),
                    frames: v.frames.push(
                        FrameState {
                            origin: o,
                            text: Seq::empty(),
                            pos: 0,
                            out: Seq::empty(),
                            wrap_media: None,
                        },
                    ),
                    waiting: Waiting::Text,
                    ..v
                },
                StepState::NeedText(o),
            )
        }
    }
}

/// The completion transition: a fully scanned stylesheet is spliced into its
/// parent — wrapped in its `@media` clause when the import carried one — or,
/// at top level, appended to the bundle with its trailing newline.
pub open spec fn spec_finish_frame(v: BundlerState) -> (BundlerState, StepState) {
    let f = v.frames.last();
    let rest = v.frames.drop_last();
    if rest.len() == 0 {
        (
            BundlerState { frames: rest, bundled: v.bundled + f.out + "\n"@, ..v },
            StepState::Progress,
        )
    } else {
        let piece = match f.wrap_media {
            None => f.out,
            Some(m) => "@media "@ + m + " {"@ + f.out + "}\n"@,
        };
        let parent = rest.last();
        let p1 = FrameState { out: parent.out + piece, ..parent };
        (
            BundlerState { frames: rest.update(rest.len() - 1, p1), ..v },
            StepState::Progress,
        )
    }
}

/// The scanning transition on the top frame: `@import` directives bound the
/// segment; the first `url()` inside it either passes through verbatim (an
/// inert reference) or becomes an asset request; with no `url()` left, the
/// segment is copied and the bounding import — if any — is resolved and
/// spliced: nothing for an already-visited origin (an empty `@media` block
/// when it carried a clause), a recorded request for a fresh one.
pub open spec fn spec_scan_frame(v: BundlerState) -> (BundlerState, StepState) {
    let f = v.frames.last();
    let fi = v.frames.len() - 1;
    let import = crate::cssscan::spec_find_import(f.text, f.pos);
    let seg_end = match import {
        Some(m) => m.0,
        None => f.text.len() as int,
    };
    let seg = f.text.subrange(f.pos, seg_end);
    match crate::cssscan::spec_find_url(seg, 0) {
        Some((st, en, raw)) => {
            let f1 = FrameState { out: f.out + seg.subrange(0, st), ..f };
            if spec_non_fetchable(raw) {
                let f2 = FrameState { out: f1.out + seg.subrange(st, en), pos: f.pos + en, ..f1 };
                (BundlerState { frames: v.frames.update(fi, f2), ..v }, StepState::Progress)
            } else {
                match spec_resolve_css(v.base_full, v.base_scheme, f.origin, raw) {
                    None => (
                        BundlerState {
                            frames: v.frames.update(fi, f1),
                            waiting: Waiting::Finished,
                            ..v
                        },
                        StepState::Fail("resolve css url failed: "@ + raw),
                    ),
                    Some(res) => {
                        let kind = spec_guess_kind(res, raw);
                        let f2 = FrameState { pos: f.pos + st, ..f1 };
                        (
                            BundlerState {
                                frames: v.frames.update(fi, f2),
                                pending_end: f.pos + en,
                                pending_kind: kind,
                                waiting: Waiting::Asset,
                                ..v
                            },
                            StepState::NeedAsset(kind, res),
                        )
                    },
                }
            }
        },
        None => {
            let f1 = FrameState { out: f.out + seg, ..f };
            match import {
                None => (
                    BundlerState {
                        frames: v.frames.update(fi, FrameState { pos: f.text.len() as int, ..f1 }),
                        ..v
                    },
                    StepState::Progress,
                ),
                Some((ist, iend, iraw, imedia)) => {
                    match spec_resolve_css(v.base_full, v.base_scheme, f.origin, iraw) {
                        None => (
                            BundlerState {
                                frames: v.frames.update(fi, f1),
                                waiting: Waiting::Finished,
                                ..v
                            },
                            StepState::Fail("resolve import failed: "@ + iraw),
                        ),
                        Some(child) => {
                            let key = key_of(child);
                            let f2 = FrameState { pos: iend, ..f1 };
                            if v.visited.contains(key) {
                                let f3 = if imedia.len() > 0 {
                                    FrameState {
                                        out: f2.out + "@media "@ + imedia + " {}\n"@,
                                        ..f2
                                    }
                                } else {
                                    f2
                                };
                                (
                                    BundlerState { frames: v.frames.update(fi, f3), ..v },
                                    StepState::Progress,
                                )
                            } else {
                                let childf = FrameState {
                                    origin: child,
                                    text: Seq::empty(),
                                    pos: 0,
                                    out: Seq::empty(),
                                    wrap_media: if imedia.len() > 0 {
                                        Some(imedia)
                                    } else {
                                        None
                                    },
                                };
                                (
                                    BundlerState {
                                        frames: v.frames.update(fi, f2).push(childf),
                                        visited: v.visited.push(key),
                                        waiting: Waiting::Text,
                                        ..v
                                    },
                                    StepState::NeedText(child),
                                )
                            }
                        },
                    }
                },
            }
        },
    }
}

/// One transition of the bundling machine: settle a pending asset first,
/// else move between top-level origins, else finish or scan the top frame.
/// `step` returns exactly this.
pub open spec fn spec_transition(v: BundlerState) -> (BundlerState, StepState) {
    if v.pending is Some {
        spec_settle_asset(v, v.pending->Some_0)
    } else if v.frames.len() == 0 {
        spec_next_origin(v)
    } else if v.frames.last().pos >= v.frames.last().text.len() {
        spec_finish_frame(v)
    } else {
        spec_scan_frame(v)
    }
}

/// The work left in the machine, outside of driver answers: top-level
/// origins not yet taken, open frames, and unscanned text in the top frame.
pub open spec fn spec_measure(v: BundlerState) -> (int, int, int) {
    (
        v.origins.len() - v.next_origin,
        v.frames.len() as int,
        if v.frames.len() > 0 {
            v.frames.last().text.len() - v.frames.last().pos
        } else {
            0
        },
    )
}

/// Lexicographic order on the measure.
pub open spec fn measure_lt(a: (int, int, int), b: (int, int, int)) -> bool {
    ||| a.0 < b.0
    ||| (a.0 == b.0 && a.1 < b.1)
    ||| (a.0 == b.0 && a.1 == b.1 && a.2 < b.2)
}

/// Ghost image of one frame.
spec fn frame_state(f: Frame) -> FrameState {
    FrameState {
        origin: origin_view(f.origin),
        text: f.text@,
        pos: f.pos as int,
        out: f.out@,
        wrap_media: match f.wrap_media {
            Some(m) => Some(m@),
            None => None,
        },
    }
}

/// Ghost image of a frame stack.
spec fn frames_view(fs: Seq<Frame>) -> Seq<FrameState> {
    fs.map_values(|f: Frame| frame_state(f))
}

/// Ghost image of the visited keys.
spec fn visited_view(v: Seq<String>) -> Seq<Seq<char>> {
    v.map_values(|s: String| s@)
}

/// Ghost image of the top-level origins.
pub open spec fn origins_states(os: Seq<CssOrigin>) -> Seq<Result<Seq<char>, Seq<char>>> {
    os.map_values(|o: CssOrigin| origin_view(o))
}

proof fn lemma_frames_view_update(prev: Seq<Frame>, cur: Seq<Frame>, x: Frame)
    requires
        prev.len() > 0,
        cur == prev.drop_last().push(x),
    ensures
        frames_view(cur) =~~= frames_view(prev).update(prev.len() - 1, frame_state(x)),
{
    let a = frames_view(cur);
    let b = frames_view(prev).update(prev.len() - 1, frame_state(x));
    assert forall|i: int| 0 <= i < a.len() implies a[i] == b[i] by {
        if i < prev.len() - 1 {
            assert(cur[i] == prev[i]);
        } else {
            assert(cur[i] == x);
        }
    }
}

proof fn lemma_frames_view_push(prev: Seq<Frame>, cur: Seq<Frame>, x: Frame)
    requires
        cur == prev.push(x),
    ensures
        frames_view(cur) =~~= frames_view(prev).push(frame_state(x)),
{
    let a = frames_view(cur);
    let b = frames_view(prev).push(frame_state(x));
    assert forall|i: int| 0 <= i < a.len() implies a[i] == b[i] by {
        if i < prev.len() {
            assert(cur[i] == prev[i]);
        } else {
            assert(cur[i] == x);
        }
    }
}

proof fn lemma_frames_view_drop(prev: Seq<Frame>, cur: Seq<Frame>)
    requires
        prev.len() > 0,
        cur == prev.drop_last(),
    ensures
        frames_view(cur) =~~= frames_view(prev).drop_last(),
{
    let a = frames_view(cur);
    let b = frames_view(prev).drop_last();
    assert forall|i: int| 0 <= i < a.len() implies a[i] == b[i] by {
        assert(cur[i] == prev[i]);
    }
}

proof fn lemma_frames_view_merge(prev: Seq<Frame>, cur: Seq<Frame>, p: Frame)
    requires
        prev.len() >= 2,
        cur == prev.drop_last().drop_last().push(p),
    ensures
        frames_view(cur) =~~= frames_view(prev).drop_last().update(
            prev.len() - 2,
            frame_state(p),
        ),
{
    let a = frames_view(cur);
    let b = frames_view(prev).drop_last().update(prev.len() - 2, frame_state(p));
    assert forall|i: int| 0 <= i < a.len() implies a[i] == b[i] by {
        if i < prev.len() - 2 {
            assert(cur[i] == prev[i]);
        } else {
            assert(cur[i] == p);
        }
    }
}

proof fn lemma_frames_view_split(prev: Seq<Frame>, cur: Seq<Frame>, x: Frame, c: Frame)
    requires
        prev.len() > 0,
        cur == prev.drop_last().push(x).push(c),
    ensures
        frames_view(cur) =~~= frames_view(prev).update(prev.len() - 1, frame_state(x)).push(
            frame_state(c),
        ),
{
    let a = frames_view(cur);
    let b = frames_view(prev).update(prev.len() - 1, frame_state(x)).push(frame_state(c));
    assert forall|i: int| 0 <= i < a.len() implies a[i] == b[i] by {
        if i < prev.len() - 1 {
            assert(cur[i] == prev[i]);
        } else if i == prev.len() - 1 {
            assert(cur[i] == x);
        } else {
            assert(cur[i] == c);
        }
    }
}

proof fn lemma_visited_view_push(prev: Seq<String>, cur: Seq<String>, k: String)
    requires
        cur == prev.push(k),
    ensures
        visited_view(cur) =~~= visited_view(prev).push(k@),
{
    let a = visited_view(cur);
    let b = visited_view(prev).push(k@);
    assert forall|i: int| 0 <= i < a.len() implies a[i] == b[i] by {
        if i < prev.len() {
            assert(cur[i] == prev[i]);
        } else {
            assert(cur[i] == k);
        }
    }
}

proof fn lemma_visited_view(v: Seq<String>, k: Seq<char>)
    ensures
        visited_has(v, k) == visited_view(v).contains(k),
{
    let m = visited_view(v);
    if visited_has(v, k) {
        let i = choose|i: int| 0 <= i < v.len() && v[i]@ == k;
        assert(m[i] == k);
    }
    if m.contains(k) {
        let i = choose|i: int| 0 <= i < m.len() && m[i] == k;
        assert(v[i]@ == k);
    }
}

/// The CSS bundling machine. Top-level origins are bundled in order,
/// separated by newlines; inside each stylesheet, `@import` directives are
/// spliced (wrapped in their media clause when one is present) and `url()`
/// references rewritten to settled assets. Each distinct origin key is
/// loaded at most once — a cyclic or diamond-shaped import graph therefore
/// terminates, every stylesheet inlined exactly once, in encounter order.
/// Every call's contract is an equality over `spec_state`, so the whole
/// output of a run is determined by the origins and the driver's answers.
pub struct CssBundler {
    base: BaseUrl,
    mode: OutputMode,
    assets_dir: String,
    origins: Vec<CssOrigin>,
    next_origin: usize,
    started: bool,
    visited: Vec<String>,
    frames: Vec<Frame>,
    bundled: String,
    waiting: Waiting,
    pending: Option<Result<String, String>>,
    pending_end: usize,
    pending_kind: AssetKind,
}

impl CssBundler {
    /// The machine's internal accounting is consistent.
    pub closed spec fn wf(self) -> bool {
        &&& visited_unique(self.visited@)
        &&& self.next_origin <= self.origins@.len()
        &&& (forall|i: int|
            0 <= i < self.frames@.len() ==> (#[trigger] self.frames@[i]).pos
                <= self.frames@[i].text@.len())
        &&& ((self.waiting is Asset || self.pending is Some) ==> (self.frames@.len() > 0 && {
            let top = self.frames@.last();
            top.pos < self.pending_end <= top.text@.len()
        }))
        &&& (self.waiting is Text ==> (self.pending is None && self.frames@.len() > 0))
    }

    /// Whose turn it is.
    pub closed spec fn spec_waiting(self) -> Waiting {
        self.waiting
    }

    /// The origin keys loaded so far, in encounter order.
    pub closed spec fn spec_visited(self) -> Seq<String> {
        self.visited@
    }

    /// The machine's ghost state.
    pub closed spec fn spec_state(self) -> BundlerState {
        BundlerState {
            base_full: self.base.full@,
            base_scheme: self.base.scheme@,
            mode: self.mode,
            assets_dir: self.assets_dir@,
            origins: origins_states(self.origins@),
            next_origin: self.next_origin as int,
            started: self.started,
            visited: visited_view(self.visited@),
            frames: frames_view(self.frames@),
            bundled: self.bundled@,
            waiting: self.waiting,
            pending: match self.pending {
                Some(Ok(v)) => Some(Ok(v@)),
                Some(Err(e)) => Some(Err(e@)),
                None => None,
            },
            pending_end: self.pending_end as int,
            pending_kind: self.pending_kind,
        }
    }

    /// Starts a bundling run over the given top-level origins.
    pub fn new(
        base: BaseUrl,
        mode: OutputMode,
        assets_dir: String,
        origins: Vec<CssOrigin>,
    ) -> (r: CssBundler)
        ensures
            r.wf(),
            r.spec_waiting() is Ready,
            r.spec_visited().len() == 0,
            visited_unique(r.spec_visited()),
            r.spec_state() == (BundlerState {
                base_full: base.full@,
                base_scheme: base.scheme@,
                mode,
                assets_dir: assets_dir@,
                origins: origins_states(origins@),
                next_origin: 0,
                started: false,
                visited: Seq::empty(),
                frames: Seq::empty(),
                bundled: Seq::empty(),
                waiting: Waiting::Ready,
                pending: None,
                pending_end: 0,
                pending_kind: AssetKind::Other,
            }),
    {
        let r = CssBundler {
            base,
            mode,
            assets_dir,
            origins,
            next_origin: 0,
            started: false,
            visited: Vec::new(),
            frames: Vec::new(),
            bundled: String::new(),
            waiting: Waiting::Ready,
            pending: None,
            pending_end: 0,
            pending_kind: AssetKind::Other,
        };
        proof {
            assert(r.spec_state().visited =~= Seq::<Seq<char>>::empty());
            assert(r.spec_state().frames =~= Seq::<FrameState>::empty());
        }
        r
    }

    /// Answers a `NeedText` request with the origin's raw stylesheet text:
    /// the top frame takes the text, rewound to its start.
    pub fn provide_text(&mut self, text: &str)
        requires
            old(self).wf(),
            old(self).spec_waiting() is Text,
        ensures
            final(self).wf(),
            final(self).spec_waiting() is Ready,
            final(self).spec_visited() == old(self).spec_visited(),
            final(self).spec_state() == spec_provide_text(old(self).spec_state(), text@),
    {
        let ghost v0 = self.spec_state();
        let tv = chars_of(text);
        let mut frame = self.frames.pop().unwrap();
        frame.text = tv;
        frame.pos = 0;
        self.frames.push(frame);
        self.waiting = Waiting::Ready;
        proof {
            assert(self.spec_state().frames =~~= v0.frames.update(
                v0.frames.len() - 1,
                FrameState { text: text@, pos: 0, ..v0.frames.last() },
            ));
        }
    }

    /// Answers a `NeedAsset` request with the store's settled value for it:
    /// the value is held for the next `step` to substitute.
    pub fn provide_asset(&mut self, result: Result<String, String>)
        requires
            old(self).wf(),
            old(self).spec_waiting() is Asset,
        ensures
            final(self).wf(),
            final(self).spec_waiting() is Ready,
            final(self).spec_visited() == old(self).spec_visited(),
            final(self).spec_state() == spec_provide_asset(
                old(self).spec_state(),
                match result {
                    Ok(v) => Ok(v@),
                    Err(e) => Err(e@),
                },
            ),
    {
        self.pending = Some(result);
        self.waiting = Waiting::Ready;
    }

    /// Whose turn it is in the protocol.
    pub fn waiting(&self) -> (w: Waiting)
        ensures
            w == self.spec_waiting(),
    {
        self.waiting
    }

    fn visited_contains(&self, key: &Vec<char>) -> (r: bool)
        ensures
            r == visited_has(self.visited@, key@),
    {
        let mut i: usize = 0;
        while i < self.visited.len()
            invariant
                i <= self.visited@.len(),
                forall|k: int| 0 <= k < i ==> self.visited@[k]@ != key@,
            decreases self.visited.len() - i,
        {
            let kv = chars_of(self.visited[i].as_str());
            if vecs_eq(&kv, key) {
                return true;
            }
            i = i + 1;
        }
        false
    }

    /// Performs one transition: exactly `spec_transition` of the state. A
    /// returned `NeedText(o)` always names an origin whose key was never
    /// requested before, now recorded — no origin is loaded twice in a run —
    /// and a `Continue` strictly shrinks the measure, so the machine reaches
    /// a request, `Done` or `Fail` after finitely many steps between answers.
    #[verifier::rlimit(100)]
    #[verifier::spinoff_prover]
    pub fn step(&mut self) -> (r: BundleStep)
        requires
            old(self).wf(),
            old(self).spec_waiting() is Ready,
        ensures
            final(self).wf(),
            (final(self).spec_state(), step_state(r)) == spec_transition(old(self).spec_state()),
            visited_unique(final(self).spec_visited()),
            old(self).spec_visited().is_prefix_of(final(self).spec_visited()),
            final(self).spec_visited().len() <= old(self).spec_visited().len() + 1,
            r matches BundleStep::NeedText(o) ==> ({
                &&& !visited_has(old(self).spec_visited(), spec_origin_key(o))
                &&& visited_has(final(self).spec_visited(), spec_origin_key(o))
                &&& final(self).spec_visited().len() == old(self).spec_visited().len() + 1
                &&& final(self).spec_waiting() is Text
            }),
            r is NeedAsset ==> final(self).spec_waiting() is Asset,
            r is Continue ==> final(self).spec_waiting() is Ready && measure_lt(
                spec_measure(final(self).spec_state()),
                spec_measure(old(self).spec_state()),
            ),
            (r is Done || r is Fail) ==> final(self).spec_waiting() is Finished,
            (r is Done || r is Fail || r is NeedAsset || r is Continue)
                ==> final(self).spec_visited() == old(self).spec_visited(),
    {
        let ghost v0 = self.spec_state();
        // A settled asset comes first: substitute it and move on.
        if self.pending.is_some() {
            let res = match &self.pending {
                Some(Ok(v)) => Ok(v.clone()),
                Some(Err(e)) => Err(e.clone()),
                None => Ok(String::new()),
            };
            proof {
                assert(v0.pending == Some(
                    match res {
                        Ok(v) => Ok::<Seq<char>, Seq<char>>(v@),
                        Err(e) => Err::<Seq<char>, Seq<char>>(e@),
                    },
                ));
            }
            self.pending = None;
            let replacement = match res {
                Ok(v) => v,
                Err(e) => {
                    if matches!(self.pending_kind, AssetKind::Font) {
                        // A lost font degrades to an inert placeholder
                        // instead of aborting the run.
                        String::from_str("data:font/woff2;base64,")
                    } else {
                        self.waiting = Waiting::Finished;
                        let mut m = String::from_str("download asset failed: ");
                        m.append(e.as_str());
                        proof {
                            assert(self.spec_state() == spec_transition(v0).0);
                        }
                        return BundleStep::Fail(m);
                    }
                },
            };
            let replacement = if matches!(self.mode, OutputMode::Dir) {
                relativize_for_bundled_css(replacement.as_str(), self.assets_dir.as_str())
            } else {
                replacement
            };
            proof {
                let rv = v0.pending->Some_0;
                let settled = match rv {
                    Ok(val) => val,
                    Err(_) => "data:font/woff2;base64,"@,
                };
                let repl = if v0.mode is Dir {
                    spec_relativize(settled, v0.assets_dir)
                } else {
                    settled
                };
                assert(replacement@ == repl);
            }
            let mut frame = self.frames.pop().unwrap();
            frame.out.append("url(\"");
            let esc = escape_double_quotes(replacement.as_str());
            frame.out.append(esc.as_str());
            frame.out.append("\")");
            frame.pos = self.pending_end;
            self.frames.push(frame);
            proof {
                let t = spec_transition(v0);
                lemma_frames_view_update(old(self).frames@, self.frames@, self.frames@.last());
                assert(frame_state(self.frames@.last()) == t.0.frames.last());
                assert(self.spec_state().frames =~~= t.0.frames);
                assert(self.spec_state() == t.0);
            }
            return BundleStep::Continue;
        }
        if self.frames.len() == 0 {
            // Between top-level origins.
            if self.next_origin >= self.origins.len() {
                self.waiting = Waiting::Finished;
                proof {
                    assert(self.spec_state() == spec_transition(v0).0);
                }
                return BundleStep::Done(self.bundled.clone());
            }
            let origin = dup_origin(&self.origins[self.next_origin]);
            proof {
                assert(v0.origins[self.next_origin as int] == origin_view(origin));
            }
            self.next_origin = self.next_origin + 1;
            if self.started {
                self.bundled.append("\n");
            } else {
                self.started = true;
            }
            let key = origin_key(&origin);
            let kv = chars_of(key.as_str());
            proof {
                lemma_visited_view(self.visited@, key@);
                assert(key_of(origin_view(origin)) == spec_origin_key(origin));
            }
            if self.visited_contains(&kv) {
                // A repeated top-level origin contributes nothing more.
                self.bundled.append("\n");
                proof {
                    assert(self.spec_state() == spec_transition(v0).0);
                }
                return BundleStep::Continue;
            }
            let ghost vis0 = self.visited@;
            self.visited.push(key);
            proof {
                lemma_visited_push(vis0, self.visited@, spec_origin_key(origin), self.visited@.last());
            }
            self.frames.push(
                Frame {
                    origin: dup_origin(&origin),
                    text: Vec::new(),
                    pos: 0,
                    out: String::new(),
                    wrap_media: None,
                },
            );
            self.waiting = Waiting::Text;
            proof {
                let t = spec_transition(v0);
                lemma_visited_view_push(vis0, self.visited@, self.visited@.last());
                assert(self.spec_state().visited =~~= t.0.visited);
                lemma_frames_view_push(old(self).frames@, self.frames@, self.frames@.last());
                assert(frame_state(self.frames@.last()).text =~= Seq::<char>::empty());
                assert(frame_state(self.frames@.last()).out =~= Seq::<char>::empty());
                assert(frame_state(self.frames@.last()) == t.0.frames.last());
                assert(self.spec_state().frames =~~= t.0.frames);
                assert(self.spec_state() == t.0);
            }
            return BundleStep::NeedText(origin);
        }
        let mut frame = self.frames.pop().unwrap();
        let ghost fs = v0.frames.last();
        proof {
            assert(fs == frame_state(frame));
        }
        if frame.pos >= frame.text.len() {
            // This stylesheet is fully processed.
            if self.frames.len() == 0 {
                self.bundled.append(frame.out.as_str());
                self.bundled.append("\n");
                proof {
                    let t = spec_transition(v0);
                    lemma_frames_view_drop(old(self).frames@, self.frames@);
                    assert(self.spec_state().frames =~~= t.0.frames);
                    assert(self.spec_state() == t.0);
                }
            } else {
                let mut parent = self.frames.pop().unwrap();
                match &frame.wrap_media {
                    None => {
                        parent.out.append(frame.out.as_str());
                    },
                    Some(media) => {
                        parent.out.append("@media ");
                        parent.out.append(media.as_str());
                        parent.out.append(" {");
                        parent.out.append(frame.out.as_str());
                        parent.out.append("}\n");
                    },
                }
                self.frames.push(parent);
                proof {
                    let t = spec_transition(v0);
                    lemma_frames_view_merge(old(self).frames@, self.frames@, self.frames@.last());
                    let expected = spec_finish_frame(v0).0.frames[v0.frames.len() - 2];
                    assert(frame_state(self.frames@.last()).out =~= expected.out);
                    assert(frame_state(self.frames@.last()) == expected);
                    assert(self.spec_state().frames =~~= t.0.frames);
                    assert(self.spec_state() == t.0);
                }
            }
            return BundleStep::Continue;
        }
        // Scan for the next construct: imports bound the segment that url()
        // rewriting works on.
        let import = find_import_ref(&frame.text, frame.pos);
        let seg_end = match &import {
            Some(imp) => imp.start,
            None => frame.text.len(),
        };
        proof {
            assert(frame.pos <= seg_end <= frame.text@.len());
        }
        let seg = subvec(&frame.text, frame.pos, seg_end);
        match find_url_ref(&seg, 0) {
            Some(u) => {
                let pre = subvec(&seg, 0, u.start);
                let pre_s = string_from_chars(&pre);
                frame.out.append(pre_s.as_str());
                if is_non_fetchable_url(u.raw.as_str()) {
                    // Inert reference: the matched text passes through.
                    let lit = subvec(&seg, u.start, u.end);
                    let lit_s = string_from_chars(&lit);
                    frame.out.append(lit_s.as_str());
                    frame.pos = frame.pos + u.end;
                    self.frames.push(frame);
                    proof {
                        let t = spec_transition(v0);
                        lemma_frames_view_update(
                            old(self).frames@,
                            self.frames@,
                            self.frames@.last(),
                        );
                        assert(frame_state(self.frames@.last()) == t.0.frames.last());
                        assert(self.spec_state().frames =~~= t.0.frames);
                        assert(self.spec_state() == t.0);
                    }
                    return BundleStep::Continue;
                }
                let raw_v = chars_of(u.raw.as_str());
                match resolve_css_url(&self.base, &frame.origin, &raw_v) {
                    None => {
                        self.waiting = Waiting::Finished;
                        self.frames.push(frame);
                        let mut m = String::from_str("resolve css url failed: ");
                        m.append(u.raw.as_str());
                        proof {
                            let t = spec_transition(v0);
                            lemma_frames_view_update(
                                old(self).frames@,
                                self.frames@,
                                self.frames@.last(),
                            );
                            assert(frame_state(self.frames@.last()) == t.0.frames.last());
                            assert(self.spec_state().frames =~~= t.0.frames);
                            assert(self.spec_state() == t.0);
                        }
                        return BundleStep::Fail(m);
                    },
                    Some(resolved) => {
                        let kind = guess_asset_kind(&resolved, &raw_v);
                        let ghost res_v = resolved_view(resolved);
                        let source = match resolved {
                            ResolvedAsset::Remote(url) => AssetSource::Remote(url),
                            ResolvedAsset::Local(p) => AssetSource::Local(p),
                        };
                        proof {
                            assert(source_state(source) == res_v);
                        }
                        self.pending_end = frame.pos + u.end;
                        self.pending_kind = kind;
                        frame.pos = frame.pos + u.start;
                        self.frames.push(frame);
                        self.waiting = Waiting::Asset;
                        proof {
                            let t = spec_transition(v0);
                            lemma_frames_view_update(
                                old(self).frames@,
                                self.frames@,
                                self.frames@.last(),
                            );
                            assert(frame_state(self.frames@.last()) == t.0.frames.last());
                            assert(self.spec_state().frames =~~= t.0.frames);
                            assert(self.spec_state() == t.0);
                        }
                        return BundleStep::NeedAsset(AssetRequest { kind, source });
                    },
                }
            },
            None => {
                let seg_s = string_from_chars(&seg);
                frame.out.append(seg_s.as_str());
                match import {
                    None => {
                        frame.pos = frame.text.len();
                        self.frames.push(frame);
                        proof {
                            let t = spec_transition(v0);
                            lemma_frames_view_update(
                                old(self).frames@,
                                self.frames@,
                                self.frames@.last(),
                            );
                            assert(frame_state(self.frames@.last()) == t.0.frames.last());
                            assert(self.spec_state().frames =~~= t.0.frames);
                            assert(self.spec_state() == t.0);
                        }
                        return BundleStep::Continue;
                    },
                    Some(imp) => {
                        let raw_v = chars_of(imp.raw.as_str());
                        match resolve_import_origin(&self.base, &frame.origin, &raw_v) {
                            None => {
                                self.waiting = Waiting::Finished;
                                self.frames.push(frame);
                                let mut m = String::from_str("resolve import failed: ");
                                m.append(imp.raw.as_str());
                                proof {
                                    let t = spec_transition(v0);
                                    lemma_frames_view_update(
                                        old(self).frames@,
                                        self.frames@,
                                        self.frames@.last(),
                                    );
                                    assert(frame_state(self.frames@.last()) == t.0.frames.last());
                                    assert(self.spec_state().frames =~~= t.0.frames);
                                    assert(self.spec_state() == t.0);
                                }
                                return BundleStep::Fail(m);
                            },
                            Some(child_origin) => {
                                let key = origin_key(&child_origin);
                                let kv = chars_of(key.as_str());
                                frame.pos = imp.end;
                                proof {
                                    lemma_visited_view(self.visited@, key@);
                                    assert(key_of(origin_view(child_origin)) == spec_origin_key(
                                        child_origin,
                                    ));
                                }
                                if self.visited_contains(&kv) {
                                    // Already inlined once: a cycle or a
                                    // diamond; splice nothing.
                                    if !imp.media.as_str().is_empty() {
                                        frame.out.append("@media ");
                                        frame.out.append(imp.media.as_str());
                                        frame.out.append(" {}\n");
                                    }
                                    self.frames.push(frame);
                                    proof {
                                        let t = spec_transition(v0);
                                        lemma_frames_view_update(
                                            old(self).frames@,
                                            self.frames@,
                                            self.frames@.last(),
                                        );
                                        assert(frame_state(self.frames@.last())
                                            == t.0.frames.last());
                                        assert(self.spec_state().frames =~~= t.0.frames);
                                        assert(self.spec_state() == t.0);
                                    }
                                    return BundleStep::Continue;
                                }
                                let ghost vis0 = self.visited@;
                                self.visited.push(key);
                                proof {
                                    lemma_visited_push(
                                        vis0,
                                        self.visited@,
                                        spec_origin_key(child_origin),
                                        self.visited@.last(),
                                    );
                                }
                                let media: Option<String> = if !imp.media.as_str().is_empty() {
                                    Some(imp.media)
                                } else {
                                    None
                                };
                                let ghost f2x = frame_state(frame);
                                self.frames.push(frame);
                                self.frames.push(
                                    Frame {
                                        origin: dup_origin(&child_origin),
                                        text: Vec::new(),
                                        pos: 0,
                                        out: String::new(),
                                        wrap_media: media,
                                    },
                                );
                                self.waiting = Waiting::Text;
                                proof {
                                    let t = spec_transition(v0);
                                    lemma_visited_view_push(
                                        vis0,
                                        self.visited@,
                                        self.visited@.last(),
                                    );
                                    assert(self.spec_state().visited =~~= t.0.visited);
                                    lemma_frames_view_split(
                                        old(self).frames@,
                                        self.frames@,
                                        self.frames@[self.frames@.len() - 2],
                                        self.frames@.last(),
                                    );
                                    assert(frame_state(self.frames@[self.frames@.len() - 2])
                                        == t.0.frames[v0.frames.len() - 1]);
                                    assert(frame_state(self.frames@.last()).text
                                        =~= Seq::<char>::empty());
                                    assert(frame_state(self.frames@.last()).out
                                        =~= Seq::<char>::empty());
                                    assert(frame_state(self.frames@.last()) == t.0.frames.last());
                                    assert(self.spec_state().frames =~~= t.0.frames);
                                    assert(self.spec_state() == t.0);
                                }
                                return BundleStep::NeedText(child_origin);
                            },
                        }
                    },
                }
            },
        }
    }
}

/// What answering a text request does to the state: the top frame takes the
/// text, rewound to its start, and it is the machine's turn again.
pub open spec fn spec_provide_text(v: BundlerState, text: Seq<char>) -> BundlerState {
    if v.frames.len() == 0 {
        v
    } else {
        BundlerState {
            frames: v.frames.update(
                v.frames.len() - 1,
                FrameState { text, pos: 0, ..v.frames.last() },
            ),
            waiting: Waiting::Ready,
            ..v
        }
    }
}

/// What answering an asset request does to the state: the settled value is
/// held for the next transition, and it is the machine's turn again.
pub open spec fn spec_provide_asset(
    v: BundlerState,
    result: Result<Seq<char>, Seq<char>>,
) -> BundlerState {
    BundlerState { pending: Some(result), waiting: Waiting::Ready, ..v }
}

} // verus!
