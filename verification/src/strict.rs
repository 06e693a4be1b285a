//! The strict offline validator: the final scan over the assembled artifact
//! that proves no remote or root-relative reference survived rewriting.
//!
//! The CSS side works on the stylesheet text directly. The HTML side works on
//! a `DocScan`: the autoload-capable attributes and style texts that the
//! caller extracted from the parsed document.

use vstd::prelude::*;

use crate::strutil::{
    chars_of, contains_pat, contains_seq, has_prefix, lower, match_at, spec_trim, to_lower_vec,
    trim_vec,
};

verus! {

/// One autoload-capable attribute found in the document: an `src`, `srcset`
/// or `href` sitting on an `img`, `source`, `script`, `link`, `iframe`,
/// `audio` or `video` element.
#[derive(Debug)]
pub struct AttrScan {
    pub tag: String,
    pub attr: String,
    pub value: String,
}

/// Everything the HTML check reads from a parsed document.
#[derive(Debug)]
pub struct DocScan {
    /// The autoload-capable attributes, in document order.
    pub loadable: Vec<AttrScan>,
    /// The values of all `style` attributes.
    pub style_attrs: Vec<String>,
    /// The text of all `<style>` elements.
    pub style_texts: Vec<String>,
}

/// A residual network reference: the artifact is not offline-safe.
#[derive(Debug)]
pub enum StrictError {
    /// The stylesheet text still references a non-local URL.
    CssRemote,
    /// An autoload-capable attribute still points at a remote or
    /// root-relative target.
    HtmlAutoload { tag: String, attr: String, value: String },
    /// A `style` attribute still holds a remote `url()`.
    StyleAttrRemote,
    /// A `<style>` element still holds a remote `url()` or an `@import`.
    StyleTextRemote,
}

/// The value starts a network fetch when loaded: absolute http(s) or
/// protocol-relative, after trimming and lowercasing.
pub open spec fn spec_remote_auto_load(v: Seq<char>) -> bool {
    let l = lower(spec_trim(v));
    has_prefix(l, "http://"@) || has_prefix(l, "https://"@) || has_prefix(l, "//"@)
}

/// Tests whether a trimmed, lowercased value is an absolute or
/// protocol-relative URL.
pub fn is_remote_auto_load(v: &str) -> (r: bool)
    ensures
        r == spec_remote_auto_load(v@),
{
    let c = chars_of(v);
    let t = trim_vec(&c);
    let l = to_lower_vec(&t);
    let http = chars_of("http://");
    let https = chars_of("https://");
    let proto = chars_of("//");
    match_at(&l, &http, 0) || match_at(&l, &https, 0) || match_at(&l, &proto, 0)
}

/// The value is a disallowed autoload target: non-empty, not an inert scheme
/// or fragment, and remote or root-relative.
pub open spec fn spec_disallowed_autoload(v: Seq<char>) -> bool {
    let s = spec_trim(v);
    let l = lower(s);
    &&& s.len() > 0
    &&& !has_prefix(l, "data:"@)
    &&& !has_prefix(l, "about:"@)
    &&& !has_prefix(l, "blob:"@)
    &&& !has_prefix(s, "#"@)
    &&& (spec_remote_auto_load(s) || has_prefix(s, "/"@))
}

/// Tests whether an attribute value is a disallowed autoload target.
pub fn is_disallowed_autoload(v: &str) -> (r: bool)
    ensures
        r == spec_disallowed_autoload(v@),
{
    let c = chars_of(v);
    let s = trim_vec(&c);
    if s.len() == 0 {
        return false;
    }
    let l = to_lower_vec(&s);
    let data = chars_of("data:");
    let about = chars_of("about:");
    let blob = chars_of("blob:");
    let hash = chars_of("#");
    if match_at(&l, &data, 0) || match_at(&l, &about, 0) || match_at(&l, &blob, 0) || match_at(
        &s,
        &hash,
        0,
    ) {
        return false;
    }
    let slash = chars_of("/");
    let http = chars_of("http://");
    let https = chars_of("https://");
    let proto = chars_of("//");
    proof {
        crate::strutil::lemma_trim_idempotent(v@);
    }
    match_at(&l, &http, 0) || match_at(&l, &https, 0) || match_at(&l, &proto, 0) || match_at(
        &s,
        &slash,
        0,
    )
}

/// The lowercased stylesheet text holds a pattern that would reach the
/// network: a `url()` opening onto an absolute, protocol-relative or
/// root-relative target, or an `@import` of an absolute http(s) URL.
pub open spec fn spec_css_offending(css: Seq<char>) -> bool {
    let l = lower(css);
    ||| contains_seq(l, "url(http://"@)
    ||| contains_seq(l, "url(https://"@)
    ||| contains_seq(l, "url(\"http://"@)
    ||| contains_seq(l, "url(\"https://"@)
    ||| contains_seq(l, "url('http://"@)
    ||| contains_seq(l, "url('https://"@)
    ||| contains_seq(l, "url('//"@)
    ||| contains_seq(l, "url(\"//"@)
    ||| contains_seq(l, "url(/"@)
    ||| contains_seq(l, "url(\"/"@)
    ||| contains_seq(l, "url('/"@)
    ||| contains_seq(l, "@import \"http"@)
    ||| contains_seq(l, "@import 'http"@)
    ||| contains_seq(l, "@import url(http"@)
    ||| contains_seq(l, "@import url(\"http"@)
    ||| contains_seq(l, "@import url('http"@)
}

/// Checks the bundled stylesheet text for residual network references.
pub fn assert_css_strict(css: &str) -> (r: Result<(), StrictError>)
    ensures
        (r is Ok) == !spec_css_offending(css@),
        r matches Err(e) ==> e is CssRemote,
{
    let c = chars_of(css);
    let l = to_lower_vec(&c);
    let p0 = chars_of("url(http://");
    let p1 = chars_of("url(https://");
    let p2 = chars_of("url(\"http://");
    let p3 = chars_of("url(\"https://");
    let p4 = chars_of("url('//");
    let p5 = chars_of("url(\"//");
    let p6 = chars_of("url(/");
    let p7 = chars_of("url(\"/");
    let p8 = chars_of("url('/");
    let p9 = chars_of("@import \"http");
    let p10 = chars_of("@import url(http");
    let p11 = chars_of("@import url(\"http");
    let p12 = chars_of("url('http://");
    let p13 = chars_of("url('https://");
    let p14 = chars_of("@import 'http");
    let p15 = chars_of("@import url('http");
    if contains_pat(&l, &p0) || contains_pat(&l, &p1) || contains_pat(&l, &p2) || contains_pat(
        &l,
        &p3,
    ) || contains_pat(&l, &p4) || contains_pat(&l, &p5) || contains_pat(&l, &p6) || contains_pat(
        &l,
        &p7,
    ) || contains_pat(&l, &p8) || contains_pat(&l, &p9) || contains_pat(&l, &p10) || contains_pat(
        &l,
        &p11,
    ) || contains_pat(&l, &p12) || contains_pat(&l, &p13) || contains_pat(&l, &p14)
        || contains_pat(&l, &p15) {
        Err(StrictError::CssRemote)
    } else {
        Ok(())
    }
}

/// A `style` attribute value still reaching the network: a lowercased
/// `url(http`, or a literal `url(//`.
pub open spec fn spec_style_attr_offending(s: Seq<char>) -> bool {
    contains_seq(lower(s), "url(http"@) || contains_seq(s, "url(//"@)
}

/// A `<style>` element text still reaching the network: a lowercased
/// `url(http`, `url(//`, or any `@import`.
pub open spec fn spec_style_text_offending(s: Seq<char>) -> bool {
    let l = lower(s);
    contains_seq(l, "url(http"@) || contains_seq(l, "url(//"@) || contains_seq(l, "@import"@)
}

fn style_attr_offending(s: &String) -> (r: bool)
    ensures
        r == spec_style_attr_offending(s@),
{
    let c = chars_of(s.as_str());
    let l = to_lower_vec(&c);
    let url_http = chars_of("url(http");
    let url_proto = chars_of("url(//");
    contains_pat(&l, &url_http) || contains_pat(&c, &url_proto)
}

fn style_text_offending(s: &String) -> (r: bool)
    ensures
        r == spec_style_text_offending(s@),
{
    let c = chars_of(s.as_str());
    let l = to_lower_vec(&c);
    let url_http = chars_of("url(http");
    let url_proto = chars_of("url(//");
    let import = chars_of("@import");
    contains_pat(&l, &url_http) || contains_pat(&l, &url_proto) || contains_pat(&l, &import)
}

/// The whole document scan is offline-safe.
pub open spec fn spec_doc_offline(doc: DocScan) -> bool {
    &&& forall|i: int|
        0 <= i < doc.loadable@.len() ==> !spec_disallowed_autoload(#[trigger] doc.loadable@[i].value@)
    &&& forall|i: int|
        0 <= i < doc.style_attrs@.len() ==> !spec_style_attr_offending(#[trigger] doc.style_attrs@[i]@)
    &&& forall|i: int|
        0 <= i < doc.style_texts@.len() ==> !spec_style_text_offending(#[trigger] doc.style_texts@[i]@)
}

/// Checks the assembled artifact — the scanned document plus the stylesheet
/// text — and accepts exactly when no residual network reference remains.
/// An error names a real violation: an `HtmlAutoload` carries a disallowed
/// attribute of the scan, and each other variant points at text that offends.
pub fn assert_strict_offline(doc: &DocScan, css: &str) -> (r: Result<(), StrictError>)
    ensures
        (r is Ok) == (!spec_css_offending(css@) && spec_doc_offline(*doc)),
        r matches Err(e) ==> (match e {
            StrictError::CssRemote => spec_css_offending(css@),
            StrictError::HtmlAutoload { tag, attr, value } => (exists|i: int|
                0 <= i < doc.loadable@.len() && (#[trigger] doc.loadable@[i]).tag@ == tag@
                    && doc.loadable@[i].attr@ == attr@ && doc.loadable@[i].value@ == value@
                    && spec_disallowed_autoload(value@)),
            StrictError::StyleAttrRemote => (exists|i: int|
                0 <= i < doc.style_attrs@.len() && spec_style_attr_offending(
                    #[trigger] doc.style_attrs@[i]@,
                )),
            StrictError::StyleTextRemote => (exists|i: int|
                0 <= i < doc.style_texts@.len() && spec_style_text_offending(
                    #[trigger] doc.style_texts@[i]@,
                )),
        }),
{
    if let Err(e) = assert_css_strict(css) {
        return Err(e);
    }
    let mut i: usize = 0;
    while i < doc.loadable.len()
        invariant
            i <= doc.loadable@.len(),
            forall|k: int|
                0 <= k < i ==> !spec_disallowed_autoload(#[trigger] doc.loadable@[k].value@),
        decreases doc.loadable.len() - i,
    {
        if is_disallowed_autoload(doc.loadable[i].value.as_str()) {
            proof {
                assert(spec_disallowed_autoload(doc.loadable@[i as int].value@));
            }
            return Err(
                StrictError::HtmlAutoload {
                    tag: doc.loadable[i].tag.clone(),
                    attr: doc.loadable[i].attr.clone(),
                    value: doc.loadable[i].value.clone(),
                },
            );
        }
        i = i + 1;
    }
    let mut i: usize = 0;
    while i < doc.style_attrs.len()
        invariant
            i <= doc.style_attrs@.len(),
            forall|k: int| 0 <= k < i ==> !spec_style_attr_offending(#[trigger] doc.style_attrs@[k]@),
        decreases doc.style_attrs.len() - i,
    {
        if style_attr_offending(&doc.style_attrs[i]) {
            proof {
                assert(spec_style_attr_offending(doc.style_attrs@[i as int]@));
            }
            return Err(StrictError::StyleAttrRemote);
        }
        i = i + 1;
    }
    let mut i: usize = 0;
    while i < doc.style_texts.len()
        invariant
            i <= doc.style_texts@.len(),
            forall|k: int| 0 <= k < i ==> !spec_style_text_offending(#[trigger] doc.style_texts@[k]@),
        decreases doc.style_texts.len() - i,
    {
        if style_text_offending(&doc.style_texts[i]) {
            proof {
                assert(spec_style_text_offending(doc.style_texts@[i as int]@));
            }
            return Err(StrictError::StyleTextRemote);
        }
        i = i + 1;
    }
    Ok(())
}

impl StrictError {
    /// A human-readable account of the violation.
    pub fn message(&self) -> (r: String) {
        match self {
            StrictError::CssRemote => String::from_str(
                "strict offline check failed: css still references non-local urls",
            ),
            StrictError::HtmlAutoload { tag, attr, value } => {
                let mut m = String::from_str("strict offline check failed: <");
                m.append(tag.as_str());
                m.append(" ");
                m.append(attr.as_str());
                m.append("=\"");
                m.append(value.as_str());
                m.append("\"> is not local");
                m
            },
            StrictError::StyleAttrRemote => String::from_str(
                "strict offline check failed: style attribute contains remote url()",
            ),
            StrictError::StyleTextRemote => String::from_str(
                "strict offline check failed: <style> contains remote url()",
            ),
        }
    }
}

} // verus!
